//! Egress path for log events bound for the Datadog HTTP intake: events are
//! encoded, grouped by API key, batched under size, count and time limits,
//! turned into HTTP requests and dispatched with retries, while completions
//! are acknowledged to the producer in admission order.

pub mod ack;
pub mod batch;
pub mod config;
pub mod dispatch;
pub mod encoding;
pub mod engine;
pub mod event;
pub mod health;
pub mod history;
pub mod json;
pub mod request;
pub mod scheduler;
pub mod text;
