//! Compliant two-leg arbitrage scanning over Uniswap V2 and V3 pools.

pub mod agenda;
pub mod config;
pub mod dex;
pub mod executor;
pub mod notifier;
pub mod opportunity;
pub mod profit;
pub mod ranking;
pub mod runner;
pub mod scanner;
pub mod stability;
pub mod text;
pub mod types;
