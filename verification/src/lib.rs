//! A market data fan-out service: a deterministic order book feed, a table of
//! latest books, a per-instrument broadcast bus and the rules of the wire
//! protocol in front of them.

#![allow(unused_imports)]

pub mod bus;
pub mod channel;
pub mod client;
pub mod config;
pub mod course;
pub mod fanout;
pub mod feed;
pub mod grpc;
pub mod ingest;
pub mod isolation;
pub mod journey;
pub mod service;
pub mod snapshot;
pub mod table;
pub mod text;
pub mod types;
pub mod upstream;
pub mod vars;
