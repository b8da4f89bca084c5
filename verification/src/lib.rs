//! A gateway core: configuration snapshots, request checks, rate limits,
//! usage counters, and the normalisation of upstream event streams.

pub mod strmap;
pub mod text;
pub mod types;
pub mod config;
pub mod snapshot;
pub mod compile;
pub mod loader;
pub mod storage;
pub mod ratelimit;
pub mod spend;
pub mod access;
pub mod json;
pub mod sse;
pub mod stream;
pub mod codec;
pub mod protocol;
pub mod pipeline;
pub mod respond;
pub mod watch;
pub mod listing;
