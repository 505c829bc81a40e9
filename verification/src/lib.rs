//! Reconnecting Server-Sent-Events client for signal streams: the verified core.
//!
//! The library holds the decisions of the client: validating a configuration,
//! building the subscription URL and request headers, classifying HTTP
//! statuses, splitting a byte stream into lines, parsing those lines into SSE
//! events, and choosing what to do after a connection ends.

pub mod config;
pub mod error;
pub mod reconnect;
pub mod request;
pub mod signal;
pub mod sse;
pub mod stream;
pub mod text;

