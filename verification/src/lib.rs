//! Verified core of the Galileo arbitrage scheduler: configuration rules,
//! request building, trade planning and wallet handling.
#![allow(unused_imports)]

pub mod text;
pub mod json;
pub mod order;
pub mod wallet;
pub mod config;
pub mod keys;
pub mod strategy;
pub mod context;
pub mod api;
pub mod cli;
pub mod cache;
pub mod legs;
