use chrono::Datelike;
use netoptim::models::{default_metrics, NetworkMetrics, NetworkStatus};
use netoptim::optimizer::{
    first_failure, next_renice, select_bandwidth_hogs, NetworkOptimizer, Outcome, ProcessUsage, Remediation,
    plan_optimizations,
};
use netoptim::probe_data::{
    calculate_averages, determine_health, filter_last_n_days, filter_window, Averages,
    HealthStatus, Mean, NetworkHealth, ProbeData,
};

fn record(date: &str, metrics: [Option<u64>; 6]) -> ProbeData {
    ProbeData {
        id: 1,
        date: date.to_string(),
        time: "12:00".to_string(),
        router_ip: "192.168.1.1".to_string(),
        router_ssid: "home".to_string(),
        router_mac: "00:11:22:33:44:55".to_string(),
        interface: "wlan0".to_string(),
        latency: metrics[0],
        jitter: metrics[1],
        packet_loss: metrics[2],
        signal_strength: metrics[3],
        download_speed: metrics[4],
        upload_speed: metrics[5],
        isp_name: "isp".to_string(),
        gateway_reachability: "yes".to_string(),
        interface_ip: "192.168.1.20".to_string(),
    }
}

fn one(v: u64) -> Option<Mean> {
    Some(Mean { total: v as u128, count: 1 })
}

fn empty_averages() -> Averages {
    Averages {
        latency: None,
        jitter: None,
        packet_loss: None,
        signal_strength: None,
        download_speed: None,
        upload_speed: None,
    }
}

fn healthy() -> Averages {
    Averages {
        latency: one(20_000),
        jitter: one(2_000),
        packet_loss: one(0),
        signal_strength: one(90_000),
        download_speed: one(50_000),
        upload_speed: one(20_000),
    }
}

fn all_ok(n: usize) -> Vec<Outcome> {
    (0..n).map(|_| Ok(())).collect()
}

#[test]
fn averages_of_empty_window_are_absent() {
    assert_eq!(calculate_averages(&[]), empty_averages());
}

#[test]
fn averages_lie_between_min_and_max() {
    let data = vec![
        record("2024-01-01", [Some(10_000), None, Some(1_000), None, None, None]),
        record("2024-01-02", [Some(40_000), None, Some(2_500), None, None, None]),
        record("2024-01-03", [Some(25_500), None, None, None, None, None]),
    ];
    let a = calculate_averages(&data);
    let lat = a.latency.unwrap();
    assert_eq!(lat, Mean { total: 75_500, count: 3 });
    assert!(10_000 * 3 <= lat.total && lat.total <= 40_000 * 3);
    assert_eq!(a.packet_loss, Some(Mean { total: 3_500, count: 2 }));
    assert_eq!(a.jitter, None);
}

#[test]
fn absent_metric_stays_absent_and_single_value_is_kept() {
    let data = vec![
        record("2024-01-01", [None, None, None, Some(70_000), None, None]),
        record("2024-01-02", [None, None, None, None, None, None]),
    ];
    let a = calculate_averages(&data);
    assert_eq!(a.latency, None);
    assert_eq!(a.upload_speed, None);
    assert_eq!(a.signal_strength, one(70_000));
}

#[test]
fn missing_values_are_not_counted_as_zero() {
    let data = vec![
        record("2024-01-01", [Some(100_000), None, None, None, None, None]),
        record("2024-01-02", [None, None, None, None, None, None]),
    ];
    assert_eq!(calculate_averages(&data).latency, one(100_000));
}

#[test]
fn classification_is_deterministic() {
    let mut a = healthy();
    a.jitter = one(12_000);
    assert_eq!(determine_health(&a), determine_health(&a));
    assert_eq!(determine_health(&a), HealthStatus::Fair);
}

#[test]
fn tier_boundaries_are_strict() {
    let mut a = healthy();
    a.packet_loss = one(5_000);
    assert_eq!(determine_health(&a), HealthStatus::Good);
    a.packet_loss = one(5_010);
    assert_eq!(determine_health(&a), HealthStatus::Critical);

    let mut a = healthy();
    a.latency = one(150_000);
    assert_eq!(determine_health(&a), HealthStatus::Good);
    a.latency = one(150_010);
    assert_eq!(determine_health(&a), HealthStatus::Critical);

    let mut a = healthy();
    a.signal_strength = one(50_000);
    assert_eq!(determine_health(&a), HealthStatus::Good);
    a.signal_strength = one(49_990);
    assert_eq!(determine_health(&a), HealthStatus::Poor);

    let mut a = healthy();
    a.download_speed = one(10_000);
    assert_eq!(determine_health(&a), HealthStatus::Good);
    a.download_speed = one(9_990);
    assert_eq!(determine_health(&a), HealthStatus::Poor);

    let mut a = healthy();
    a.jitter = one(10_000);
    assert_eq!(determine_health(&a), HealthStatus::Good);
    a.jitter = one(10_010);
    assert_eq!(determine_health(&a), HealthStatus::Fair);
}

#[test]
fn boundary_uses_exact_mean() {
    // mean of 5.0 and 5.001 is 5.0005, above 5.0
    let mut a = healthy();
    a.packet_loss = Some(Mean { total: 10_001, count: 2 });
    assert_eq!(determine_health(&a), HealthStatus::Critical);
}

#[test]
fn critical_rule_takes_precedence() {
    let mut a = healthy();
    a.packet_loss = one(6_000);
    a.signal_strength = one(10_000);
    assert_eq!(determine_health(&a), HealthStatus::Critical);
}

#[test]
fn absent_metrics_never_degrade() {
    assert_eq!(determine_health(&empty_averages()), HealthStatus::Good);
}

#[test]
fn second_cycle_replaces_first() {
    let mut opt = NetworkOptimizer::new();
    let mut a = healthy();
    a.packet_loss = one(6_000);
    a.latency = one(200_000);
    let critical = NetworkHealth { averages: a, status: HealthStatus::Critical };
    let outcomes: Vec<Outcome> = vec![Ok(()), Err("exit 1".to_string()), Ok(())];
    opt.apply_optimizations(&critical, &outcomes);
    assert_eq!(opt.get_current_optimizations().len(), 2);
    assert_eq!(
        opt.get_failed_optimizations(),
        &vec!["Enable aggressive QoS: exit 1".to_string()]
    );

    let good = NetworkHealth { averages: healthy(), status: HealthStatus::Good };
    opt.apply_optimizations(&good, &all_ok(1));
    assert_eq!(opt.get_current_optimizations(), &vec!["Cleaned DNS cache".to_string()]);
    assert!(opt.get_failed_optimizations().is_empty());

    opt.apply_optimizations(&good, &[Err("denied".to_string())]);
    assert!(opt.get_current_optimizations().is_empty());
    assert_eq!(
        opt.get_failed_optimizations(),
        &vec!["Clean DNS cache: denied".to_string()]
    );
}

#[test]
fn critical_always_restarts_services() {
    let critical = NetworkHealth { averages: healthy(), status: HealthStatus::Critical };
    assert_eq!(plan_optimizations(&critical), vec![Remediation::RestartNetworkServices]);
    let mut opt = NetworkOptimizer::new();
    opt.apply_optimizations(&critical, &[Err("no systemctl".to_string())]);
    assert_eq!(
        opt.get_failed_optimizations(),
        &vec!["Restart network services: no systemctl".to_string()]
    );
    opt.apply_optimizations(&critical, &all_ok(1));
    assert_eq!(
        opt.get_current_optimizations(),
        &vec!["Restarted network services".to_string()]
    );
}

#[test]
fn end_to_end_critical_window() {
    let data = vec![record(
        "2024-01-01",
        [Some(200_000), Some(2_000), Some(6_000), Some(90_000), Some(50_000), Some(20_000)],
    )];
    let a = calculate_averages(&data);
    assert_eq!(
        a,
        Averages {
            latency: one(200_000),
            jitter: one(2_000),
            packet_loss: one(6_000),
            signal_strength: one(90_000),
            download_speed: one(50_000),
            upload_speed: one(20_000),
        }
    );
    let status = determine_health(&a);
    assert_eq!(status, HealthStatus::Critical);
    let health = NetworkHealth { averages: a, status };
    let plan = plan_optimizations(&health);
    assert_eq!(
        plan,
        vec![
            Remediation::SwitchToBackupConnection,
            Remediation::EnableAggressiveQos,
            Remediation::RestartNetworkServices,
        ]
    );
    let mut opt = NetworkOptimizer::new();
    opt.apply_optimizations(&health, &all_ok(plan.len()));
    assert_eq!(opt.get_current_optimizations().len(), 3);
    assert!(opt.get_failed_optimizations().is_empty());
}

#[test]
fn end_to_end_empty_window() {
    let a = calculate_averages(&[]);
    assert_eq!(a, empty_averages());
    let status = determine_health(&a);
    assert_eq!(status, HealthStatus::Good);
    let health = NetworkHealth { averages: a, status };
    assert_eq!(plan_optimizations(&health), vec![Remediation::CleanCache]);
}

#[test]
fn poor_and_fair_plans() {
    let mut a = healthy();
    a.signal_strength = one(30_000);
    a.download_speed = one(5_000);
    let poor = NetworkHealth { averages: a, status: HealthStatus::Poor };
    assert_eq!(
        plan_optimizations(&poor),
        vec![Remediation::AdjustWirelessPower, Remediation::LimitBandwidthHogs]
    );
    let mut a = healthy();
    a.jitter = one(15_000);
    let fair = NetworkHealth { averages: a, status: HealthStatus::Fair };
    assert_eq!(plan_optimizations(&fair), vec![Remediation::EnableJitterBuffering]);
    let quiet_fair = NetworkHealth { averages: healthy(), status: HealthStatus::Fair };
    assert!(plan_optimizations(&quiet_fair).is_empty());
    let mut opt = NetworkOptimizer::new();
    opt.apply_optimizations(&quiet_fair, &[]);
    assert!(opt.get_current_optimizations().is_empty());
    assert!(opt.get_failed_optimizations().is_empty());
}

#[test]
fn window_keeps_dates_in_range() {
    let today = chrono::NaiveDate::from_ymd_opt(2024, 3, 10).unwrap().num_days_from_ce();
    let data = vec![
        record("2024-03-07", [Some(1), None, None, None, None, None]),
        record("2024-03-06", [Some(2), None, None, None, None, None]),
        record("not a date", [Some(3), None, None, None, None, None]),
        record("2024-03-10", [Some(4), None, None, None, None, None]),
        record("2024-03-11", [Some(5), None, None, None, None, None]),
    ];
    let kept: Vec<Option<u64>> = filter_window(&data, 3, today).iter().map(|d| d.latency).collect();
    assert_eq!(kept, vec![Some(1), Some(4)]);
}

#[test]
fn window_drops_unparsable_and_old_records() {
    let data = vec![
        record("yesterday", [Some(1), None, None, None, None, None]),
        record("1999-01-01", [Some(2), None, None, None, None, None]),
    ];
    assert!(filter_last_n_days(&data, 3).is_empty());
}

#[test]
fn hogs_are_heavy_readers() {
    let procs = vec![
        ProcessUsage { pid: 1, read_bytes: 100_000_000 },
        ProcessUsage { pid: 2, read_bytes: 100_000_001 },
        ProcessUsage { pid: 3, read_bytes: 5 },
        ProcessUsage { pid: 4, read_bytes: 900_000_000 },
    ];
    assert_eq!(select_bandwidth_hogs(&procs), vec![2, 4]);
}

#[test]
fn first_failure_wins() {
    let outcomes: Vec<Outcome> =
        vec![Ok(()), Err("first".to_string()), Err("second".to_string())];
    assert_eq!(first_failure(&outcomes), Err("first".to_string()));
    assert_eq!(first_failure(&all_ok(2)), Ok(()));
    assert_eq!(first_failure(&[]), Ok(()));
}

#[test]
fn messages_name_the_action() {
    assert_eq!(Remediation::LimitBandwidthHogs.success_message(), "Limited bandwidth hogs");
    assert_eq!(
        Remediation::EnableJitterBuffering.failure_message(&"boom".to_string()),
        "Enable jitter buffering: boom"
    );
}

#[test]
fn default_metric_list() {
    assert_eq!(
        default_metrics(),
        vec![
            "latency_ms",
            "jitter_ms",
            "packet_loss_percent",
            "signal_strength_percent",
            "download_speed_mbps",
            "upload_speed_mbps"
        ]
    );
}

#[test]
fn metrics_and_status_from_cycle() {
    let m = NetworkMetrics::from_averages(&healthy(), true);
    assert_eq!(m.latency_ms, one(20_000));
    assert!(m.gateway_reachable);
    assert_eq!(NetworkStatus::from_health(HealthStatus::Poor), NetworkStatus::Poor);
}

#[test]
fn renice_steps_stop_at_first_failure() {
    let hogs = vec![7, 8, 9];
    assert_eq!(next_renice(&hogs, &[]), Some(7));
    assert_eq!(next_renice(&hogs, &[Ok(())]), Some(8));
    assert_eq!(next_renice(&hogs, &[Ok(()), Err("busy".to_string())]), None);
    assert_eq!(next_renice(&hogs, &all_ok(3)), None);
    assert_eq!(next_renice(&[], &[]), None);
}
