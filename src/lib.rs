//! Network health classification and remediation engine.
//!
//! Metric values are carried as fixed-point integers in thousandths of their
//! unit (a latency of 12.5 ms is `12500`), so that averaging and the tier
//! thresholds are exact.

pub mod metric_text;
pub mod models;
pub mod optimizer;
pub mod probe_data;
