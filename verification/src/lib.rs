pub mod binance;
pub mod codec;
pub mod config;
pub mod domain;
pub mod feed;
pub mod gateway;
pub mod metrics;
pub mod numtext;
pub mod positions;
pub mod risk;
pub mod router;
pub mod strategy;
pub mod sys;
