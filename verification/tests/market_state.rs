use arbitrage::decimal::Decimal;
use arbitrage::market_state::{
    MarketState, levels_to_offers, offer_to_price_level, offers_to_levels, pair_key_from_stream,
    price_level_to_offer,
};
use arbitrage::models::{DepthStreamData, DepthStreamWrapper, OfferData};
use arbitrage::orderbook::{ApplyOutcome, OrderBookDiff, OrderBookError, PriceLevel};

fn num(text: &str) -> Decimal {
    Decimal::parse(text).unwrap()
}

fn offer(price: &str, size: &str) -> OfferData {
    OfferData { price: num(price), size: num(size) }
}

fn wrapper(
    stream: &str,
    last_update_id: u64,
    bids: Vec<OfferData>,
    asks: Vec<OfferData>,
) -> DepthStreamWrapper {
    DepthStreamWrapper {
        stream: stream.to_string(),
        data: DepthStreamData { last_update_id, bids, asks },
    }
}

#[test]
fn stores_snapshot_and_exports_depth_view() {
    let mut state = MarketState::with_capacity(1);
    state.apply_depth_snapshot(
        wrapper(
            "btcusdt@depth20@100ms",
            42,
            vec![offer("100", "2"), offer("99", "3")],
            vec![offer("101", "4"), offer("102", "5")],
        ),
        1_234,
    );

    let view = state
        .export_depth_wrapper("btcusdt", 2)
        .expect("depth view should exist");
    assert_eq!(view.stream, "btcusdt@depth20@100ms");
    assert_eq!(view.data.last_update_id, 42);
    assert_eq!(view.data.bids.len(), 2);
    assert_eq!(view.data.asks.len(), 2);
    assert_eq!(view.data.bids[0].price, Decimal::from_i64(100));
    assert_eq!(view.data.asks[0].price, Decimal::from_i64(101));

    let timed_view = state
        .export_depth_view("btcusdt", 2)
        .expect("depth view should exist");
    assert_eq!(timed_view.last_receive_time_ms, 1_234);
}

#[test]
fn export_respects_depth_limit_and_replaces_previous_snapshot() {
    let mut state = MarketState::with_capacity(2);
    state.apply_depth_snapshot(
        wrapper(
            "ethbtc@depth20@100ms",
            10,
            vec![offer("0.05", "1"), offer("0.049", "2"), offer("0.048", "3")],
            vec![
                offer("0.051", "1"),
                offer("0.052", "2"),
                offer("0.053", "3"),
            ],
        ),
        100,
    );
    state.apply_depth_snapshot(
        wrapper(
            "ethbtc@depth20@100ms",
            11,
            vec![offer("0.0505", "4")],
            vec![offer("0.0515", "6")],
        ),
        200,
    );

    let view = state
        .export_depth_wrapper("ethbtc", 5)
        .expect("depth view should exist");
    assert_eq!(view.data.last_update_id, 11);
    assert_eq!(view.data.bids.len(), 1);
    assert_eq!(view.data.asks.len(), 1);
    assert_eq!(view.data.bids[0].price, num("0.0505"));
    assert_eq!(view.data.asks[0].price, num("0.0515"));
    let timed_view = state
        .export_depth_view("ethbtc", 5)
        .expect("depth view should exist");
    assert_eq!(timed_view.last_receive_time_ms, 200);
}

#[test]
fn extracts_pair_key_from_stream() {
    assert_eq!(pair_key_from_stream("btcusdt@depth@100ms"), "btcusdt");
    assert_eq!(pair_key_from_stream("ethbtc"), "ethbtc");
}

#[test]
fn pairs_do_not_touch_each_other() {
    let mut state = MarketState::with_capacity(2);
    state.apply_depth_snapshot(
        wrapper("btcusdt@depth", 5, vec![offer("1", "1")], vec![offer("2", "1")]),
        10,
    );
    let changes = OrderBookDiff {
        first_update_id: 1,
        final_update_id: 2,
        prev_final_update_id: None,
        bids: vec![],
        asks: vec![],
        event_time_ms: None,
        receive_time_ms: None,
    };
    assert_eq!(
        state.apply_orderbook_diff("ethbtc", "ethbtc@depth", changes),
        Err(OrderBookError::NotSynced)
    );
    assert!(state.is_pair_synced("btcusdt"));
    assert!(!state.is_pair_synced("ethbtc"));
    assert!(state.export_depth_view("ethbtc", 5).is_none());
    state.mark_pair_unsynced("btcusdt");
    assert!(!state.is_pair_synced("btcusdt"));
    assert!(state.export_depth_wrapper("btcusdt", 5).is_none());
    state.mark_pair_unsynced("unknown");
    assert!(!state.is_pair_synced("unknown"));
}

#[test]
fn changes_show_up_with_their_stream_and_time() {
    let mut state = MarketState::with_capacity(1);
    state.apply_orderbook_snapshot(
        "btcusdt",
        "btcusdt@depth@100ms".to_string(),
        7,
        vec![PriceLevel { price: num("10"), qty: num("1") }],
        vec![PriceLevel { price: num("11"), qty: num("1") }],
        50,
    );
    let outcome = state.apply_orderbook_diff(
        "btcusdt",
        "btcusdt@depth@1000ms",
        OrderBookDiff {
            first_update_id: 8,
            final_update_id: 9,
            prev_final_update_id: Some(7),
            bids: vec![PriceLevel { price: num("10.5"), qty: num("2") }],
            asks: vec![],
            event_time_ms: Some(60),
            receive_time_ms: Some(61),
        },
    );
    assert_eq!(outcome, Ok(ApplyOutcome::Applied));
    let view = state.export_depth_view("btcusdt", 1).unwrap();
    assert_eq!(view.depth.stream, "btcusdt@depth@1000ms");
    assert_eq!(view.depth.data.last_update_id, 9);
    assert_eq!(view.depth.data.bids, vec![offer("10.5", "2")]);
    assert_eq!(view.last_receive_time_ms, 61);
}

#[test]
fn offers_and_levels_stand_for_each_other() {
    let offers = vec![offer("1.5", "2"), offer("3", "0.25")];
    let levels = offers_to_levels(&offers);
    assert_eq!(levels[1], PriceLevel { price: num("3"), qty: num("0.25") });
    assert_eq!(levels_to_offers(&levels), offers);
    assert_eq!(price_level_to_offer(offer_to_price_level(offers[0])), offers[0]);
}

#[test]
fn clone_of_a_state_goes_its_own_way() {
    let mut state = MarketState::default();
    assert!(!state.is_pair_synced("btcusdt"));
    state.apply_depth_snapshot(
        wrapper("btcusdt@depth20@100ms", 42, vec![offer("100", "2")], vec![offer("101", "4")]),
        1,
    );
    let copy = state.clone();
    state.apply_depth_snapshot(
        wrapper("ethusdt@depth20@100ms", 7, vec![offer("10", "2")], vec![offer("11", "4")]),
        2,
    );
    assert!(state.is_pair_synced("btcusdt"));
    assert!(state.is_pair_synced("ethusdt"));
    assert!(copy.is_pair_synced("btcusdt"));
    assert!(!copy.is_pair_synced("ethusdt"));
}

#[test]
fn exported_sizes_are_above_zero() {
    let mut state = MarketState::default();
    state.apply_depth_snapshot(
        wrapper(
            "btcusdt@depth20@100ms",
            42,
            vec![offer("100", "0"), offer("99", "3"), offer("98", "-1"), offer("97", "1")],
            vec![offer("103", "1"), offer("101", "0.0"), offer("102", "5")],
        ),
        1,
    );
    let depth = state.export_depth_wrapper("btcusdt", 10).unwrap();
    let prices = |offers: &[OfferData]| offers.iter().map(|o| o.price).collect::<Vec<_>>();
    assert_eq!(prices(&depth.data.bids), vec![num("99"), num("97")]);
    assert_eq!(prices(&depth.data.asks), vec![num("102"), num("103")]);
    for offer in depth.data.bids.iter().chain(depth.data.asks.iter()) {
        assert!(offer.size.is_positive());
    }
}

#[test]
fn a_stale_diff_still_names_the_stream() {
    let mut state = MarketState::default();
    state.apply_depth_snapshot(
        wrapper("btcusdt@depth20@100ms", 42, vec![offer("100", "2")], vec![offer("101", "4")]),
        7,
    );
    let diff = |first: u64, last: u64, receive_time_ms: Option<u64>| OrderBookDiff {
        first_update_id: first,
        final_update_id: last,
        prev_final_update_id: None,
        bids: Vec::new(),
        asks: Vec::new(),
        event_time_ms: None,
        receive_time_ms,
    };
    let stale = state.apply_orderbook_diff("btcusdt", "btcusdt@depth@100ms", diff(1, 2, Some(9)));
    assert_eq!(stale, Ok(ApplyOutcome::IgnoredStale));
    let view = state.export_depth_view("btcusdt", 5).unwrap();
    assert_eq!(view.depth.stream, "btcusdt@depth@100ms");
    assert_eq!(view.last_receive_time_ms, 7);
    let applied = state.apply_orderbook_diff("btcusdt", "btcusdt@depth", diff(43, 44, Some(9)));
    assert_eq!(applied, Ok(ApplyOutcome::Applied));
    assert_eq!(state.export_depth_view("btcusdt", 5).unwrap().last_receive_time_ms, 9);
    let applied = state.apply_orderbook_diff("btcusdt", "btcusdt@depth", diff(45, 45, None));
    assert_eq!(applied, Ok(ApplyOutcome::Applied));
    assert_eq!(state.export_depth_view("btcusdt", 5).unwrap().last_receive_time_ms, 7);
}
