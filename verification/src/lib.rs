//! The logic of a Kafka topic explorer: what a connection is configured with,
//! which topics and messages are shown and how, and which steps a consumer goes
//! through to fetch a page of them.
//!
//! A consumer is run from outside: the modules here settle what it is given and
//! what becomes of its replies.

pub mod config;
pub mod fetch;
pub mod fetch_laws;
pub mod headers;
pub mod message;
pub mod partitions;
pub mod redact;
pub mod request;
pub mod security;
pub mod state;
pub mod text;
pub mod timeouts;
