//! Where anomalies go.

pub mod laws;
pub mod otel;
