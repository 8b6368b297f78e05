//! What the service is configured with.

use vstd::prelude::*;

use crate::decimal::Decimal;
use crate::float_key::FloatKey;
use crate::text_map::TextMap;

verus! {

/// The address that the service listens on by default.
pub fn default_bind_addr() -> (r: String)
    ensures
        r@ == "127.0.0.1"@,
{
    "127.0.0.1".to_owned()
}

/// The port that the service listens on by default.
pub fn default_bind_port() -> (r: u16)
    ensures
        r == 8000,
{
    8000
}

/// How long to wait by default before connecting anew.
pub fn default_reconnect_delay_ms() -> (r: u64)
    ensures
        r == 1_500,
{
    1_500
}

/// Whether signals are logged by default.
pub fn default_signal_log_enabled() -> (r: bool)
    ensures
        r,
{
    true
}

/// Where signals are logged by default.
pub fn default_signal_log_path() -> (r: String)
    ensures
        r@ == "data/triangle_signals.jsonl"@,
{
    "data/triangle_signals.jsonl".to_owned()
}

/// How many signals can wait to be written by default.
pub fn default_signal_log_channel_capacity() -> (r: usize)
    ensures
        r == 2048,
{
    2048
}

/// The profit from which on a signal is worthy by default: 8 basis points.
pub fn default_signal_min_profit_bps() -> (r: FloatKey)
    ensures
        r.key == 0x4020_0000_0000_0000,
{
    FloatKey { key: 0x4020_0000_0000_0000 }
}

/// The hit rate from which on a signal is worthy by default: 0.2.
pub fn default_signal_min_hit_rate() -> (r: FloatKey)
    ensures
        r.key == 0x3FC9_9999_9999_999A,
{
    FloatKey { key: 0x3FC9_9999_9999_999A }
}

/// A binary64 number that was configured: the number itself, by its place, and
/// the decimal number that `rust_decimal` makes of it; zero where it makes none.
#[derive(Debug, Clone, Copy, PartialEq, Eq)]
pub struct ConfigNumber {
    pub float: FloatKey,
    pub decimal: Decimal,
}

impl View for ConfigNumber {
    type V = (FloatKey, crate::decimal::Number);

    open spec fn view(&self) -> (FloatKey, crate::decimal::Number) {
        (self.float, self.decimal@)
    }
}

/// The parts of an optional number.
pub open spec fn config_number(n: Option<ConfigNumber>) -> Option<(FloatKey, crate::decimal::Number)> {
    match n {
        Some(n) => Some(n@),
        None => None,
    }
}

/// A closed path over three assets: `pairs[i]` trades `parts[i]` for the asset
/// that follows it, and the third for the first.
#[derive(Debug, Clone)]
pub struct TriangleConfig {
    pub parts: [String; 3],
    pub pairs: [String; 3],
}

/// What the exchange demands of orders on a pair.
#[derive(Debug, Clone, Copy, PartialEq, Eq)]
pub struct PairRuleConfig {
    pub fee_bps: Option<ConfigNumber>,
    pub qty_step: Option<Decimal>,
    pub min_qty: Option<Decimal>,
    pub min_notional: Option<Decimal>,
}

impl Default for PairRuleConfig {
    /// No demands.
    fn default() -> (r: PairRuleConfig)
        ensures
            r == (PairRuleConfig { fee_bps: None, qty_step: None, min_qty: None, min_notional: None }),
    {
        PairRuleConfig { fee_bps: None, qty_step: None, min_qty: None, min_notional: None }
    }
}

/// The numbers of [`PairRuleConfig`] as they are written.
pub struct PairRuleView {
    pub fee_bps: Option<(FloatKey, crate::decimal::Number)>,
    pub qty_step: Option<crate::decimal::Number>,
    pub min_qty: Option<crate::decimal::Number>,
    pub min_notional: Option<crate::decimal::Number>,
}

impl View for PairRuleConfig {
    type V = PairRuleView;

    open spec fn view(&self) -> PairRuleView {
        PairRuleView {
            fee_bps: config_number(self.fee_bps),
            qty_step: crate::decimal::number(self.qty_step),
            min_qty: crate::decimal::number(self.min_qty),
            min_notional: crate::decimal::number(self.min_notional),
        }
    }
}

/// What the exchange demands of orders.
#[derive(Debug)]
pub struct ExchangeRulesConfig {
    pub enabled: bool,
    pub default_fee_bps: ConfigNumber,
    pub latency_penalty_bps: FloatKey,
    pub default_assumed_start_amount: ConfigNumber,
    pub assumed_start_amounts: TextMap<ConfigNumber>,
    pub pair_rules: TextMap<PairRuleConfig>,
}

/// How triangles are made from a list of assets.
#[derive(Debug, Clone)]
pub struct AutoTriangleGenerationConfig {
    pub enabled: bool,
    pub assets: Vec<String>,
    pub exchange_info_url: String,
    pub include_reverse_cycles: bool,
    pub include_all_starts: bool,
    pub max_triangles: usize,
}

impl Default for AutoTriangleGenerationConfig {
    /// Nothing is made; if it were, without a limit.
    fn default() -> (r: AutoTriangleGenerationConfig)
        ensures
            !r.enabled,
            r.assets@.len() == 0,
            r.exchange_info_url@ == "https://api.binance.com/api/v3/exchangeInfo"@,
            !r.include_reverse_cycles,
            !r.include_all_starts,
            r.max_triangles == 0,
    {
        AutoTriangleGenerationConfig {
            enabled: false,
            assets: Vec::new(),
            exchange_info_url: "https://api.binance.com/api/v3/exchangeInfo".to_owned(),
            include_reverse_cycles: false,
            include_all_starts: false,
            max_triangles: 0,
        }
    }
}

/// What the service is configured with.
#[derive(Debug)]
pub struct AppConfig {
    pub update_interval: u32,
    pub results_limit: u32,
    pub depth_streams: Vec<String>,
    pub triangles: Vec<TriangleConfig>,
    pub bind_addr: String,
    pub bind_port: u16,
    pub reconnect_delay_ms: u64,
    pub signal_log_enabled: bool,
    pub signal_log_path: String,
    pub signal_log_channel_capacity: usize,
    pub signal_min_profit_bps: FloatKey,
    pub signal_min_hit_rate: FloatKey,
    pub exchange_rules: ExchangeRulesConfig,
    pub auto_triangle_generation: AutoTriangleGenerationConfig,
}

} // verus!
