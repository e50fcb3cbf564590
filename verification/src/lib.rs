//! Behavioral anomaly detection for AI agents.

pub mod baseline;
pub mod detect;
pub mod dict;
pub mod event;
pub mod export;
pub mod json;
pub mod json_laws;
pub mod number;
pub mod order;
pub mod source;
pub mod store;
pub mod text;
pub mod time;
