//! QuantRadar market-intelligence library: the deterministic, integer-valued
//! parts of market-data ingestion, sequencing, gap detection, buffering and
//! bookkeeping, each stated by a contract and proved.
pub mod sequence;
pub mod text;
pub mod websocket;
pub mod feed_manager;
pub mod storage;
pub mod archives;
pub mod archive_manager;
mod clock;
pub mod domain;
pub mod core_types;
pub mod cli;
pub mod features;
pub mod kraken;
pub mod regime;
pub mod experiment;
pub mod reporting;
pub mod news;
pub mod rss;
pub mod ingestion;
pub mod data_model;
pub mod research;
pub mod screeners;
pub mod classic_screeners;
pub mod backtest;
pub mod order_book;
pub mod book_manager;
pub mod batching;
