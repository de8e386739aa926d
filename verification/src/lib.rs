//! Verified core of a multi-account algorithmic trading engine: the rules,
//! bookkeeping and text handling that decide what the engine does.

pub mod broker;
pub mod engine;
pub mod fill;
pub mod keyed;
pub mod config;
pub mod data;
pub mod logging;
pub mod model;
pub mod risk;
pub mod storage;
pub mod strategy;
pub mod text;
pub mod types;
