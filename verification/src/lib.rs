//! Triangular-arbitrage signal scanning over exchange depth data.

pub mod decimal;
pub mod text;
pub mod text_map;
pub mod float_key;
pub mod orderbook;
pub mod config;
pub mod models;
pub mod market_state;
pub mod analyzer;
pub mod auto_triangles;
pub mod binance_rest;
pub mod clock;
pub mod capture_replay;
pub mod cli;
pub mod generate_config;
pub mod names;
pub mod pnl_report;
pub mod ranking;
pub mod replay_check;
pub mod service;
pub mod signal_log;
pub mod simulator;
pub mod walk_laws;
pub mod workers;
pub mod ws;
