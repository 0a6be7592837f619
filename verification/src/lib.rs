pub mod backtest;
pub mod cli;
pub mod codec;
pub mod config;
pub mod crypto;
pub mod crawl;
pub mod dates;
pub mod formula;
pub mod html;
pub mod json;
pub mod lib_utils;
pub mod manager;
pub mod parse;
pub mod pattern;
pub mod random;
pub mod selecter;
pub mod share;
pub mod text;
pub mod trust;
