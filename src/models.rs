use crate::probe_data::{Averages, HealthStatus, Mean};
use vstd::prelude::*;
use vstd::string::StringExecFns;

verus! {

/// Response of a full evaluation cycle. Times are seconds since the Unix epoch.
#[derive(Debug, Clone)]
pub struct NetworkHealthResponse {
    pub status: NetworkStatus,
    pub metrics: NetworkMetrics,
    pub optimizations: Vec<ActiveOptimization>,
    pub timestamp: i64,
    pub time_range_seconds: u64,
}

/// The six averaged metrics of a window, in thousandths of their unit, and
/// whether the gateway answered.
#[derive(Debug, Clone, Copy, PartialEq, Eq, Structural)]
pub struct NetworkMetrics {
    pub latency_ms: Option<Mean>,
    pub jitter_ms: Option<Mean>,
    pub packet_loss_percent: Option<Mean>,
    pub signal_strength_percent: Option<Mean>,
    pub download_speed_mbps: Option<Mean>,
    pub upload_speed_mbps: Option<Mean>,
    pub gateway_reachable: bool,
}

impl NetworkMetrics {
    /// The metrics of a window's averages.
    pub fn from_averages(a: &Averages, gateway_reachable: bool) -> (r: NetworkMetrics)
        ensures
            r.latency_ms == a.latency,
            r.jitter_ms == a.jitter,
            r.packet_loss_percent == a.packet_loss,
            r.signal_strength_percent == a.signal_strength,
            r.download_speed_mbps == a.download_speed,
            r.upload_speed_mbps == a.upload_speed,
            r.gateway_reachable == gateway_reachable,
    {
        NetworkMetrics {
            latency_ms: a.latency,
            jitter_ms: a.jitter,
            packet_loss_percent: a.packet_loss,
            signal_strength_percent: a.signal_strength,
            download_speed_mbps: a.download_speed,
            upload_speed_mbps: a.upload_speed,
            gateway_reachable,
        }
    }
}

/// Health status as reported to clients.
#[derive(Debug, Clone, Copy, PartialEq, Eq, Structural)]
pub enum NetworkStatus {
    Excellent,
    Good,
    Fair,
    Poor,
    Critical,
}

pub open spec fn status_of(h: HealthStatus) -> NetworkStatus {
    match h {
        HealthStatus::Excellent => NetworkStatus::Excellent,
        HealthStatus::Good => NetworkStatus::Good,
        HealthStatus::Fair => NetworkStatus::Fair,
        HealthStatus::Poor => NetworkStatus::Poor,
        HealthStatus::Critical => NetworkStatus::Critical,
    }
}

impl NetworkStatus {
    /// The reported status of a classification.
    pub fn from_health(h: HealthStatus) -> (r: NetworkStatus)
        ensures
            r == status_of(h),
    {
        match h {
            HealthStatus::Excellent => NetworkStatus::Excellent,
            HealthStatus::Good => NetworkStatus::Good,
            HealthStatus::Fair => NetworkStatus::Fair,
            HealthStatus::Poor => NetworkStatus::Poor,
            HealthStatus::Critical => NetworkStatus::Critical,
        }
    }
}

/// An optimization in force; `implemented_at` is in seconds since the Unix epoch.
#[derive(Debug, Clone)]
pub struct ActiveOptimization {
    pub name: String,
    pub description: String,
    pub implemented_at: i64,
    pub impact: OptimizationImpact,
}

/// How an optimization affected the network.
#[derive(Debug, Clone, Copy, PartialEq, Eq, Structural)]
pub enum OptimizationImpact {
    Positive,
    Neutral,
    Negative,
}

/// A query for past measurements between two times (seconds since the Unix
/// epoch), restricted to the named metrics.
#[derive(Debug, Clone)]
pub struct HistoricalDataRequest {
    pub start_time: i64,
    pub end_time: i64,
    pub metrics: Vec<String>,
}

/// The metric names queried when a request names none.
pub open spec fn default_metric_names() -> Seq<Seq<char>> {
    seq![
        "latency_ms"@,
        "jitter_ms"@,
        "packet_loss_percent"@,
        "signal_strength_percent"@,
        "download_speed_mbps"@,
        "upload_speed_mbps"@,
    ]
}

/// The metric names queried when a request names none.
pub fn default_metrics() -> (r: Vec<String>)
    ensures
        r@.map_values(|s: String| s@) == default_metric_names(),
{
    let mut v: Vec<String> = Vec::new();
    v.push(String::from_str("latency_ms"));
    v.push(String::from_str("jitter_ms"));
    v.push(String::from_str("packet_loss_percent"));
    v.push(String::from_str("signal_strength_percent"));
    v.push(String::from_str("download_speed_mbps"));
    v.push(String::from_str("upload_speed_mbps"));
    assert(v@.map_values(|s: String| s@) =~= default_metric_names());
    v
}

/// An error reported to clients.
#[derive(Debug, Clone)]
pub struct ErrorResponse {
    pub error: String,
    pub details: Option<String>,
    pub suggestion: Option<String>,
}

} // verus!
