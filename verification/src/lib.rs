//! A library for load testing HTTP services: the configuration of a
//! benchmark, the decisions its executor takes for each request, and the
//! metrics it reports, verified with Verus.
//!
//! The network, timers and terminal output are left to the caller, which
//! performs what [`executor::RequestFlow`] asks for and records results in
//! [`metrics::Metrics`].
pub mod benchmark;
pub mod binary64;
pub mod body;
pub mod client;
pub mod config;
pub mod error;
pub mod executor;
pub mod metrics;
pub mod progress;
pub mod text;
pub mod time;

pub use benchmark::{Benchmark, BenchmarkBuilder};
pub use config::{
    AfterRequestContext, BeforeRequestContext, HookAction, HttpMethod, RequestConfig,
    RequestContext, RequestSource,
};
pub use error::Error;
pub use metrics::BenchmarkResults;
pub use time::Duration;
