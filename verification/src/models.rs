//! Depth data of the exchange and the signals that are made from it.

use vstd::prelude::*;

use crate::decimal::Decimal;
use crate::float_key::FloatKey;

verus! {

/// A price and the size that is offered at it.
#[derive(Debug, Clone, Copy, PartialEq, Eq)]
pub struct OfferData {
    pub price: Decimal,
    pub size: Decimal,
}

/// The best offers of a pair, from the best on.
#[derive(Debug, Clone)]
pub struct DepthStreamData {
    pub last_update_id: u64,
    pub bids: Vec<OfferData>,
    pub asks: Vec<OfferData>,
}

/// Depth data with the name of the stream that it came on.
#[derive(Debug, Clone)]
pub struct DepthStreamWrapper {
    pub stream: String,
    pub data: DepthStreamData,
}

/// The changes that a range of updates made to the offers of a pair.
#[derive(Debug, Clone)]
pub struct DiffDepthStreamData {
    pub event_time_ms: u64,
    pub first_update_id: u64,
    pub final_update_id: u64,
    pub prev_final_update_id: Option<u64>,
    pub bids: Vec<OfferData>,
    pub asks: Vec<OfferData>,
}

/// Depth changes with the name of the stream that they came on.
#[derive(Debug, Clone)]
pub struct DiffDepthStreamWrapper {
    pub stream: String,
    pub data: DiffDepthStreamData,
}

/// The offers of one leg of a triangle at a depth level.
#[derive(Debug, Clone)]
pub struct TriangleLegQuote {
    pub pair: String,
    pub ask_price: Decimal,
    pub ask_size: Decimal,
    pub bid_price: Decimal,
    pub bid_size: Decimal,
}

/// What an evaluation of a triangle found.
#[derive(Debug, Clone)]
pub struct TriangleOpportunitySignal {
    pub timestamp_ms: u64,
    pub exchange: String,
    pub triangle_parts: [String; 3],
    pub triangle_pairs: [String; 3],
    pub depth_levels_considered: usize,
    pub profitable_levels: usize,
    pub hit_rate: FloatKey,
    pub top_profit_bps: Decimal,
    pub best_profit_bps: Decimal,
    pub avg_profit_bps: Decimal,
    pub best_level_index: usize,
    pub assumed_start_amount: FloatKey,
    pub executable_profit_bps: Decimal,
    pub adjusted_profit_bps: FloatKey,
    pub latency_penalty_bps: FloatKey,
    pub execution_filter_passed: bool,
    pub worthy: bool,
    pub min_profit_bps_threshold: FloatKey,
    pub min_hit_rate_threshold: FloatKey,
    pub rejection_reasons: Vec<String>,
    pub fee_bps_by_leg: [FloatKey; 3],
    pub best_level_quotes: [TriangleLegQuote; 3],
}

} // verus!
