//! A simulated market data feed: the same seed gives the same stream of books.

pub mod config;
pub mod error;
pub mod generator;
pub mod pacer;
pub mod rng;
pub mod sample;
pub mod single;
pub mod subscriber;
