use chrono::Datelike;
use vstd::prelude::*;

verus! {

/// One probe sample. Metric values are in thousandths of their unit.
#[derive(Debug, Clone)]
pub struct ProbeData {
    pub id: u32,
    pub date: String,
    pub time: String,
    pub router_ip: String,
    pub router_ssid: String,
    pub router_mac: String,
    pub interface: String,
    pub latency: Option<u64>,
    pub jitter: Option<u64>,
    pub packet_loss: Option<u64>,
    pub signal_strength: Option<u64>,
    pub download_speed: Option<u64>,
    pub upload_speed: Option<u64>,
    pub isp_name: String,
    pub gateway_reachability: String,
    pub interface_ip: String,
}

/// The six measured metrics.
#[derive(Debug, Clone, Copy, PartialEq, Eq, Structural)]
pub enum Metric {
    Latency,
    Jitter,
    PacketLoss,
    SignalStrength,
    DownloadSpeed,
    UploadSpeed,
}

pub open spec fn metric_value(d: ProbeData, m: Metric) -> Option<u64> {
    match m {
        Metric::Latency => d.latency,
        Metric::Jitter => d.jitter,
        Metric::PacketLoss => d.packet_loss,
        Metric::SignalStrength => d.signal_strength,
        Metric::DownloadSpeed => d.download_speed,
        Metric::UploadSpeed => d.upload_speed,
    }
}

impl ProbeData {
    /// The value recorded for metric `m`, if any.
    pub fn value_of(&self, m: Metric) -> (r: Option<u64>)
        ensures
            r == metric_value(*self, m),
    {
        match m {
            Metric::Latency => self.latency,
            Metric::Jitter => self.jitter,
            Metric::PacketLoss => self.packet_loss,
            Metric::SignalStrength => self.signal_strength,
            Metric::DownloadSpeed => self.download_speed,
            Metric::UploadSpeed => self.upload_speed,
        }
    }

    /// A field-by-field copy.
    pub fn duplicate(&self) -> (r: ProbeData)
        ensures
            r == *self,
    {
        ProbeData {
            id: self.id,
            date: self.date.clone(),
            time: self.time.clone(),
            router_ip: self.router_ip.clone(),
            router_ssid: self.router_ssid.clone(),
            router_mac: self.router_mac.clone(),
            interface: self.interface.clone(),
            latency: self.latency,
            jitter: self.jitter,
            packet_loss: self.packet_loss,
            signal_strength: self.signal_strength,
            download_speed: self.download_speed,
            upload_speed: self.upload_speed,
            isp_name: self.isp_name.clone(),
            gateway_reachability: self.gateway_reachability.clone(),
            interface_ip: self.interface_ip.clone(),
        }
    }
}

/// An exact arithmetic mean: `total / count`, with `count > 0`.
#[derive(Debug, Clone, Copy, PartialEq, Eq, Structural)]
pub struct Mean {
    pub total: u128,
    pub count: u64,
}

impl Mean {
    pub open spec fn wf(self) -> bool {
        self.count > 0
    }

    /// The mean is strictly greater than `limit`.
    pub open spec fn above(self, limit: int) -> bool {
        self.total > limit * self.count
    }

    /// The mean is strictly smaller than `limit`.
    pub open spec fn below(self, limit: int) -> bool {
        self.total < limit * self.count
    }

    /// The mean lies within `[lo, hi]`.
    pub open spec fn within(self, lo: int, hi: int) -> bool {
        lo * self.count <= self.total <= hi * self.count
    }

    pub fn is_above(&self, limit: u64) -> (r: bool)
        ensures
            r == self.above(limit as int),
    {
        proof {
            lemma_product_fits(limit as nat, self.count as nat);
        }
        self.total > (limit as u128) * (self.count as u128)
    }

    pub fn is_below(&self, limit: u64) -> (r: bool)
        ensures
            r == self.below(limit as int),
    {
        proof {
            lemma_product_fits(limit as nat, self.count as nat);
        }
        self.total < (limit as u128) * (self.count as u128)
    }
}

proof fn lemma_product_fits(a: nat, b: nat)
    requires
        a <= u64::MAX,
        b <= u64::MAX,
    ensures
        a * b <= u128::MAX,
{
    assert(a * b <= (u64::MAX as nat) * (u64::MAX as nat)) by (nonlinear_arith)
        requires
            a <= u64::MAX,
            b <= u64::MAX,
    ;
}

/// Number of records of `s` in which metric `m` is present.
pub open spec fn present_count(s: Seq<ProbeData>, m: Metric) -> nat
    decreases s.len(),
{
    if s.len() == 0 {
        0
    } else {
        present_count(s.drop_last(), m) + if metric_value(s.last(), m) is Some {
            1nat
        } else {
            0nat
        }
    }
}

/// Sum of the present values of metric `m` over `s`.
pub open spec fn present_sum(s: Seq<ProbeData>, m: Metric) -> nat
    decreases s.len(),
{
    if s.len() == 0 {
        0
    } else {
        present_sum(s.drop_last(), m) + match metric_value(s.last(), m) {
            Some(v) => v as nat,
            None => 0nat,
        }
    }
}

/// The mean of the present values of metric `m` over `s`, `None` when there are none.
pub open spec fn mean_spec(s: Seq<ProbeData>, m: Metric) -> Option<Mean> {
    if present_count(s, m) == 0 {
        None
    } else {
        Some(Mean { total: present_sum(s, m) as u128, count: present_count(s, m) as u64 })
    }
}

proof fn lemma_present_bounds(s: Seq<ProbeData>, m: Metric)
    ensures
        present_count(s, m) <= s.len(),
        present_sum(s, m) <= present_count(s, m) * (u64::MAX as nat),
    decreases s.len(),
{
    if s.len() > 0 {
        lemma_present_bounds(s.drop_last(), m);
        let c = present_count(s.drop_last(), m);
        assert((c + 1) * (u64::MAX as nat) == c * (u64::MAX as nat) + u64::MAX) by (nonlinear_arith);
    }
}

/// The mean of metric `m` over `data`, ignoring records where it is absent.
pub fn mean_of(data: &[ProbeData], m: Metric) -> (r: Option<Mean>)
    ensures
        r == mean_spec(data@, m),
        r matches Some(x) ==> x.wf() && x.total == present_sum(data@, m) && x.count
            == present_count(data@, m),
{
    let mut total: u128 = 0;
    let mut count: u64 = 0;
    let mut i: usize = 0;
    while i < data.len()
        invariant
            i <= data@.len(),
            total == present_sum(data@.subrange(0, i as int), m),
            count == present_count(data@.subrange(0, i as int), m),
        decreases data@.len() - i,
    {
        let ghost prefix = data@.subrange(0, i as int);
        let ghost next = data@.subrange(0, i + 1);
        assert(next.drop_last() == prefix);
        proof {
            lemma_present_bounds(prefix, m);
            assert(count as nat * (u64::MAX as nat) <= (u64::MAX as nat) * (u64::MAX as nat))
                by (nonlinear_arith)
                requires
                    count <= u64::MAX,
            ;
        }
        match data[i].value_of(m) {
            Some(v) => {
                total = total + v as u128;
                count = count + 1;
            },
            None => {},
        }
        i = i + 1;
    }
    assert(data@.subrange(0, data@.len() as int) == data@);
    if count > 0 {
        Some(Mean { total, count })
    } else {
        None
    }
}

/// Per-metric means over one measurement window; a field is `None` when no
/// record of the window had that metric.
#[derive(Debug, Clone, Copy, PartialEq, Eq, Structural)]
pub struct Averages {
    pub latency: Option<Mean>,
    pub jitter: Option<Mean>,
    pub packet_loss: Option<Mean>,
    pub signal_strength: Option<Mean>,
    pub download_speed: Option<Mean>,
    pub upload_speed: Option<Mean>,
}

impl Averages {
    /// Every present mean has a non-zero count.
    pub open spec fn wf(self) -> bool {
        forall|m: Metric| #[trigger] average_of(self, m) matches Some(x) ==> x.wf()
    }
}

pub open spec fn average_of(a: Averages, m: Metric) -> Option<Mean> {
    match m {
        Metric::Latency => a.latency,
        Metric::Jitter => a.jitter,
        Metric::PacketLoss => a.packet_loss,
        Metric::SignalStrength => a.signal_strength,
        Metric::DownloadSpeed => a.download_speed,
        Metric::UploadSpeed => a.upload_speed,
    }
}

/// The averages of a window, one mean per metric.
pub open spec fn averages_spec(s: Seq<ProbeData>) -> Averages {
    Averages {
        latency: mean_spec(s, Metric::Latency),
        jitter: mean_spec(s, Metric::Jitter),
        packet_loss: mean_spec(s, Metric::PacketLoss),
        signal_strength: mean_spec(s, Metric::SignalStrength),
        download_speed: mean_spec(s, Metric::DownloadSpeed),
        upload_speed: mean_spec(s, Metric::UploadSpeed),
    }
}

/// Reduces a window to its per-metric means; absent values are skipped, never
/// counted as zero.
pub fn calculate_averages(data: &[ProbeData]) -> (r: Averages)
    ensures
        r == averages_spec(data@),
        r.wf(),
{
    let r = Averages {
        latency: mean_of(data, Metric::Latency),
        jitter: mean_of(data, Metric::Jitter),
        packet_loss: mean_of(data, Metric::PacketLoss),
        signal_strength: mean_of(data, Metric::SignalStrength),
        download_speed: mean_of(data, Metric::DownloadSpeed),
        upload_speed: mean_of(data, Metric::UploadSpeed),
    };
    assert forall|m: Metric| (#[trigger] average_of(r, m) matches Some(x) ==> x.wf()) by {
        match m {
            Metric::Latency => {},
            Metric::Jitter => {},
            Metric::PacketLoss => {},
            Metric::SignalStrength => {},
            Metric::DownloadSpeed => {},
            Metric::UploadSpeed => {},
        }
    }
    r
}

/// Health classification, best to worst.
#[derive(Debug, Clone, Copy, PartialEq, Eq, Structural)]
pub enum HealthStatus {
    Excellent,
    Good,
    Fair,
    Poor,
    Critical,
}

/// A window's averages together with their classification.
#[derive(Debug, Clone, Copy, PartialEq, Eq, Structural)]
pub struct NetworkHealth {
    pub averages: Averages,
    pub status: HealthStatus,
}

/// Packet loss above 5 %.
pub const PACKET_LOSS_LIMIT: u64 = 5000;

/// Latency above 150 ms.
pub const LATENCY_LIMIT: u64 = 150000;

/// Signal strength under 50 %.
pub const SIGNAL_FLOOR: u64 = 50000;

/// Download speed under 10 Mbps.
pub const DOWNLOAD_FLOOR: u64 = 10000;

/// Jitter above 10 ms.
pub const JITTER_LIMIT: u64 = 10000;

/// A present mean above `limit`; an absent one never is.
pub open spec fn exceeds(m: Option<Mean>, limit: u64) -> bool {
    match m {
        Some(x) => x.above(limit as int),
        None => false,
    }
}

/// A present mean under `limit`; an absent one never is.
pub open spec fn falls_short(m: Option<Mean>, limit: u64) -> bool {
    match m {
        Some(x) => x.below(limit as int),
        None => false,
    }
}

pub open spec fn is_critical(a: Averages) -> bool {
    exceeds(a.packet_loss, PACKET_LOSS_LIMIT) || exceeds(a.latency, LATENCY_LIMIT)
}

pub open spec fn is_poor(a: Averages) -> bool {
    falls_short(a.signal_strength, SIGNAL_FLOOR) || falls_short(a.download_speed, DOWNLOAD_FLOOR)
}

pub open spec fn is_fair(a: Averages) -> bool {
    exceeds(a.jitter, JITTER_LIMIT)
}

/// The first rule that matches decides the tier.
pub open spec fn health_spec(a: Averages) -> HealthStatus {
    if is_critical(a) {
        HealthStatus::Critical
    } else if is_poor(a) {
        HealthStatus::Poor
    } else if is_fair(a) {
        HealthStatus::Fair
    } else {
        HealthStatus::Good
    }
}

pub(crate) fn exceeds_limit(m: Option<Mean>, limit: u64) -> (r: bool)
    ensures
        r == exceeds(m, limit),
{
    match m {
        Some(x) => x.is_above(limit),
        None => false,
    }
}

pub(crate) fn short_of(m: Option<Mean>, limit: u64) -> (r: bool)
    ensures
        r == falls_short(m, limit),
{
    match m {
        Some(x) => x.is_below(limit),
        None => false,
    }
}

/// Classifies a window's averages. Absent metrics never degrade the tier.
pub fn determine_health(averages: &Averages) -> (r: HealthStatus)
    ensures
        r == health_spec(*averages),
{
    if exceeds_limit(averages.packet_loss, PACKET_LOSS_LIMIT) || exceeds_limit(
        averages.latency,
        LATENCY_LIMIT,
    ) {
        HealthStatus::Critical
    } else if short_of(averages.signal_strength, SIGNAL_FLOOR) || short_of(
        averages.download_speed,
        DOWNLOAD_FLOOR,
    ) {
        HealthStatus::Poor
    } else if exceeds_limit(averages.jitter, JITTER_LIMIT) {
        HealthStatus::Fair
    } else {
        HealthStatus::Good
    }
}

/// Every present mean lies between the smallest and the largest value that
/// went into it: any bounds of a metric's present values also bound its mean.
pub proof fn lemma_mean_within_bounds(s: Seq<ProbeData>, m: Metric, lo: u64, hi: u64)
    requires
        s.len() <= u64::MAX,
        forall|i: int|
            0 <= i < s.len() ==> (#[trigger] metric_value(s[i], m) matches Some(v) ==> lo <= v
                <= hi),
    ensures
        mean_spec(s, m) matches Some(x) ==> x.within(lo as int, hi as int),
{
    lemma_sum_within_bounds(s, m, lo, hi);
    lemma_present_bounds(s, m);
    let c = present_count(s, m);
    if c > 0 {
        lemma_product_fits(c, u64::MAX as nat);
        assert(present_sum(s, m) <= c * (u64::MAX as nat));
    }
}

proof fn lemma_sum_within_bounds(s: Seq<ProbeData>, m: Metric, lo: u64, hi: u64)
    requires
        forall|i: int|
            0 <= i < s.len() ==> (#[trigger] metric_value(s[i], m) matches Some(v) ==> lo <= v
                <= hi),
    ensures
        lo * present_count(s, m) <= present_sum(s, m) <= hi * present_count(s, m),
    decreases s.len(),
{
    lemma_present_bounds(s, m);
    if s.len() > 0 {
        let p = s.drop_last();
        assert forall|i: int| 0 <= i < p.len() implies (#[trigger] metric_value(p[i], m) matches Some(
            v,
        ) ==> lo <= v <= hi) by {
            assert(p[i] == s[i]);
        }
        lemma_sum_within_bounds(p, m, lo, hi);
        let c = present_count(p, m);
        let t = present_sum(p, m);
        assert(metric_value(s[s.len() - 1], m) == metric_value(s.last(), m));
        match metric_value(s.last(), m) {
            Some(v) => {
                assert(lo * (c + 1) == lo * c + lo && hi * (c + 1) == hi * c + hi)
                    by (nonlinear_arith);
                assert(present_count(s, m) == c + 1);
                assert(present_sum(s, m) == t + v);
            },
            None => {},
        }
    }
}

/// A metric is averaged to `None` exactly when no record of the window has it.
pub proof fn lemma_absent_everywhere(s: Seq<ProbeData>, m: Metric)
    ensures
        mean_spec(s, m) is None <==> forall|i: int|
            0 <= i < s.len() ==> #[trigger] metric_value(s[i], m) is None,
    decreases s.len(),
{
    if s.len() > 0 {
        let p = s.drop_last();
        lemma_absent_everywhere(p, m);
        if forall|i: int| 0 <= i < s.len() ==> #[trigger] metric_value(s[i], m) is None {
            assert forall|i: int| 0 <= i < p.len() implies #[trigger] metric_value(p[i], m) is None by {
                assert(p[i] == s[i]);
            }
        }
        if present_count(s, m) == 0 {
            assert forall|i: int| 0 <= i < s.len() implies #[trigger] metric_value(s[i], m) is None by {
                if i < p.len() {
                    assert(p[i] == s[i]);
                }
            }
        }
        if (forall|i: int| 0 <= i < s.len() ==> #[trigger] metric_value(s[i], m) is None) {
            assert(metric_value(s[s.len() - 1], m) is None);
        }
    }
}

/// A metric present in exactly one record of the window is averaged to that
/// record's value.
pub proof fn lemma_single_present_value(s: Seq<ProbeData>, m: Metric, k: int)
    requires
        0 <= k < s.len(),
        metric_value(s[k], m) is Some,
        forall|i: int| 0 <= i < s.len() && i != k ==> #[trigger] metric_value(s[i], m) is None,
    ensures
        mean_spec(s, m) == Some(Mean { total: metric_value(s[k], m)->0 as u128, count: 1 }),
    decreases s.len(),
{
    let p = s.drop_last();
    lemma_present_bounds(p, m);
    if k == s.len() - 1 {
        lemma_absent_everywhere(p, m);
        assert forall|i: int| 0 <= i < p.len() implies #[trigger] metric_value(p[i], m) is None by {
            assert(p[i] == s[i]);
        }
    } else {
        assert forall|i: int| 0 <= i < p.len() && i != k implies #[trigger] metric_value(p[i], m) is None by {
            assert(p[i] == s[i]);
        }
        assert(p[k] == s[k]);
        assert(metric_value(s[s.len() - 1], m) is None);
        lemma_single_present_value(p, m, k);
        assert(present_count(s, m) == present_count(p, m));
        assert(present_sum(s, m) == present_sum(p, m));
    }
}

/// Classification depends on the averages alone: equal averages get equal tiers.
pub proof fn lemma_classification_deterministic(a: Averages, b: Averages)
    requires
        a == b,
    ensures
        health_spec(a) == health_spec(b),
{
}

/// The critical rule is checked first: a window that meets it is critical
/// whatever its other metrics say.
pub proof fn lemma_critical_rule_first(a: Averages)
    requires
        is_critical(a),
    ensures
        health_spec(a) == HealthStatus::Critical,
{
}

/// No averages are ever classified `Excellent`.
pub proof fn lemma_excellent_unreached(a: Averages)
    ensures
        health_spec(a) != HealthStatus::Excellent,
{
}

/// The day number (days since 1 January of year 1, that day being 1) of a
/// date that chrono reads with the format `%Y-%m-%d`, or `None` where chrono
/// reads no date.
pub uninterp spec fn ymd_day_number(s: Seq<char>) -> Option<i32>;

/// Relies on chrono's `NaiveDate::parse_from_str` with format `%Y-%m-%d` and on
/// `Datelike::num_days_from_ce`: the result is a function of the text alone.
#[verifier::external_body]
fn parse_day_number(s: &str) -> (r: Option<i32>)
    ensures
        r == ymd_day_number(s@),
{
    chrono::NaiveDate::parse_from_str(s, "%Y-%m-%d").ok().map(|d| d.num_days_from_ce())
}

/// Relies on chrono's `Local::now` and `Datelike::num_days_from_ce`: the local
/// calendar date of the moment of the call, as a day number. Nothing is known
/// of its value.
#[verifier::external_body]
fn today_day_number() -> (r: i32) {
    chrono::Local::now().date_naive().num_days_from_ce()
}

/// A date falls in the `days` days up to `today`, both ends included.
pub open spec fn in_window(day: Option<i32>, days: i64, today: i32) -> bool {
    match day {
        Some(d) => today - days <= d <= today,
        None => false,
    }
}

/// The records of `s` whose date falls in the window, in their order.
pub open spec fn window_spec(s: Seq<ProbeData>, days: i64, today: i32) -> Seq<ProbeData>
    decreases s.len(),
{
    if s.len() == 0 {
        Seq::empty()
    } else {
        let rest = window_spec(s.drop_last(), days, today);
        if in_window(ymd_day_number(s.last().date@), days, today) {
            rest.push(s.last())
        } else {
            rest
        }
    }
}

/// Keeps the records dated within the `days` days up to `today` (a day
/// number); records whose date does not parse are dropped.
pub fn filter_window(data: &[ProbeData], days: i64, today: i32) -> (r: Vec<ProbeData>)
    ensures
        r@ == window_spec(data@, days, today),
{
    let mut out: Vec<ProbeData> = Vec::new();
    let mut i: usize = 0;
    while i < data.len()
        invariant
            i <= data@.len(),
            out@ == window_spec(data@.subrange(0, i as int), days, today),
        decreases data@.len() - i,
    {
        assert(data@.subrange(0, i + 1).drop_last() == data@.subrange(0, i as int));
        let rec = &data[i];
        let keep = match parse_day_number(rec.date.as_str()) {
            Some(d) => (today as i128) - (days as i128) <= d as i128 && d <= today,
            None => false,
        };
        if keep {
            out.push(rec.duplicate());
        }
        i = i + 1;
    }
    assert(data@.subrange(0, data@.len() as int) == data@);
    out
}

/// Keeps the records dated within the last `days` days, today included, by
/// the local calendar at the time of the call.
pub fn filter_last_n_days(data: &[ProbeData], days: i64) -> (r: Vec<ProbeData>)
    ensures
        exists|today: i32| r@ == window_spec(data@, days, today),
{
    let today = today_day_number();
    filter_window(data, days, today)
}

} // verus!
