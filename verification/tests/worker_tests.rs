use sammy_monitor::metrics::MetricsRegistry;
use sammy_monitor::worker::MonitorResult;
use sammy_monitor::worker::Worker;
use sammy_monitor::worker::classify_error;
use sammy_monitor::MonitorConfig;
use sammy_monitor::MonitorId;
use sammy_monitor::Settings;
use uuid::Uuid;

fn create_test_monitor(name: &str, url: &str, enabled: bool) -> MonitorConfig {
    MonitorConfig {
        id: MonitorId(Uuid::new_v4().as_u128()),
        name: name.to_string(),
        url: url.to_string(),
        interval: 60,
        enabled,
    }
}

fn create_test_settings(monitors: Vec<MonitorConfig>) -> Settings {
    Settings {
        prometheus_url: Some("http://foo:9090".to_string()),
        monitors,
    }
}

#[test]
fn test_worker_new() {
    let settings = create_test_settings(vec![]);
    let mut registry = MetricsRegistry::new();
    let worker = Worker::new(settings, &mut registry);

    assert_eq!(worker.settings.monitors.len(), 0);
    assert_eq!(worker.last_run_count(), 0);
}

#[test]
fn test_monitor_result_creation() {
    let monitor_id = MonitorId(Uuid::new_v4().as_u128());
    let timestamp: u64 = 1_700_000_000;

    let result = MonitorResult {
        monitor_id,
        monitor_name: "Test Monitor".to_string(),
        url: "https://example.com".to_string(),
        success: true,
        response_time_ms: 150,
        status_code: Some(200),
        error_message: None,
        timestamp,
    };

    assert_eq!(result.monitor_id, monitor_id);
    assert_eq!(result.monitor_name, "Test Monitor");
    assert_eq!(result.url, "https://example.com");
    assert!(result.success);
    assert_eq!(result.response_time_ms, 150);
    assert_eq!(result.status_code, Some(200));
    assert!(result.error_message.is_none());
}

#[test]
fn test_settings_filter_enabled_monitors() {
    let monitors = vec![
        create_test_monitor("Enabled Monitor", "https://enabled.com", true),
        create_test_monitor("Disabled Monitor", "https://disabled.com", false),
        create_test_monitor("Another Enabled", "https://enabled2.com", true),
    ];

    let settings = create_test_settings(monitors);
    let enabled_monitors: Vec<&MonitorConfig> = settings
        .monitors
        .iter()
        .filter(|monitor| monitor.enabled)
        .collect();

    assert_eq!(enabled_monitors.len(), 2);
    assert_eq!(enabled_monitors[0].name, "Enabled Monitor");
    assert_eq!(enabled_monitors[1].name, "Another Enabled");
}

#[test]
fn test_interval_scheduling() {
    let monitors = vec![
        MonitorConfig {
            id: MonitorId(Uuid::new_v4().as_u128()),
            name: "1min interval".to_string(),
            url: "https://example1.com".to_string(),
            interval: 1, // 1 minute
            enabled: true,
        },
        MonitorConfig {
            id: MonitorId(Uuid::new_v4().as_u128()),
            name: "2min interval".to_string(),
            url: "https://example2.com".to_string(),
            interval: 2, // 2 minutes
            enabled: true,
        },
        MonitorConfig {
            id: MonitorId(Uuid::new_v4().as_u128()),
            name: "Disabled".to_string(),
            url: "https://disabled.com".to_string(),
            interval: 1,
            enabled: false,
        },
    ];

    let settings = create_test_settings(monitors.clone());
    let mut registry = MetricsRegistry::new();
    let mut worker = Worker::new(settings, &mut registry);

    // Initially, no monitors have been run
    assert_eq!(worker.last_run_count(), 0);

    // Simulate a first run - all enabled monitors should be due
    let now: u64 = 1_000_000;
    let due = worker.check_due_monitors(now);
    let due_names: Vec<&str> = due.iter().map(|m| m.name.as_str()).collect();
    assert_eq!(due_names, vec!["1min interval", "2min interval"]);

    // Immediately after running, no monitors should be due
    let due_again = worker.check_due_monitors(now);
    assert!(due_again.is_empty());
}

#[test]
fn dispatch_exactly_at_interval_boundary() {
    let monitor = MonitorConfig {
        id: MonitorId(7),
        name: "boundary".to_string(),
        url: "https://boundary.example".to_string(),
        interval: 1, // one minute
        enabled: true,
    };
    let settings = create_test_settings(vec![monitor]);
    let mut registry = MetricsRegistry::new();
    let mut worker = Worker::new(settings, &mut registry);

    let t0: u64 = 500_000;
    assert_eq!(worker.check_due_monitors(t0).len(), 1);
    assert_eq!(worker.last_run_time(MonitorId(7)), Some(t0));

    // one millisecond short of the interval: not dispatched
    assert_eq!(worker.check_due_monitors(t0 + 59_999).len(), 0);
    assert_eq!(worker.last_run_time(MonitorId(7)), Some(t0));

    // exactly at the interval: dispatched, and the slot is re-reserved
    assert_eq!(worker.check_due_monitors(t0 + 60_000).len(), 1);
    assert_eq!(worker.last_run_time(MonitorId(7)), Some(t0 + 60_000));
}

#[test]
fn disabled_targets_never_dispatch_and_acquire_no_series() {
    let enabled = MonitorConfig {
        id: MonitorId(1),
        name: "on".to_string(),
        url: "https://on.example".to_string(),
        interval: 1,
        enabled: true,
    };
    let disabled = MonitorConfig {
        id: MonitorId(2),
        name: "off".to_string(),
        url: "https://off.example".to_string(),
        interval: 1,
        enabled: false,
    };
    let settings = create_test_settings(vec![enabled, disabled]);
    let mut registry = MetricsRegistry::new();
    let mut worker = Worker::new(settings, &mut registry);

    for cycle in 0..5u64 {
        let due = worker.check_due_monitors(cycle * 60_000);
        assert!(due.iter().all(|m| m.enabled));
        assert!(due.iter().all(|m| m.id != MonitorId(2)));
    }
    // the disabled target acquired no scheduling state
    assert_eq!(worker.last_run_time(MonitorId(2)), None);
    // and no failure-type entry was ever created for it
    assert_eq!(registry.failure_type_count(MonitorId(2), "timeout", None), Some(0));
    assert_eq!(registry.failure_count(MonitorId(2)), Some(0));
}

#[test]
fn worker_new_registers_all_monitors() {
    let a = create_test_monitor("A", "https://a.example", true);
    let b = create_test_monitor("B", "https://b.example", false);
    let a_id = a.id;
    let b_id = b.id;
    let settings = create_test_settings(vec![a, b]);
    let mut registry = MetricsRegistry::new();
    let _worker = Worker::new(settings, &mut registry);
    // both enabled and disabled monitors are registered up front
    assert!(registry.is_registered(a_id));
    assert!(registry.is_registered(b_id));
    assert_eq!(registry.success_count(a_id), Some(0));
    assert_eq!(registry.up_gauge(b_id), Some(false));
}

#[test]
fn record_metrics_routes_success_and_failure() {
    let monitor = create_test_monitor("Routed", "https://routed.example", true);
    let id = monitor.id;
    let settings = create_test_settings(vec![monitor.clone()]);
    let mut registry = MetricsRegistry::new();
    let worker = Worker::new(settings, &mut registry);

    let ok = MonitorResult::from_response(&monitor, 204, 120, 1000);
    worker.record_metrics(&mut registry, &ok);
    assert_eq!(registry.success_count(id), Some(1));
    assert_eq!(registry.up_gauge(id), Some(true));

    let bad = MonitorResult::from_response(&monitor, 500, 80, 1001);
    worker.record_metrics(&mut registry, &bad);
    assert_eq!(registry.failure_count(id), Some(1));
    assert_eq!(registry.failure_type_count(id, "http_error", Some(500)), Some(1));
    assert_eq!(registry.up_gauge(id), Some(false));

    let timed_out = MonitorResult::from_transport_failure(
        &monitor,
        "error sending request: operation timeout exceeded".to_string(),
        30_000,
        1002,
    );
    worker.record_metrics(&mut registry, &timed_out);
    assert_eq!(registry.failure_count(id), Some(2));
    assert_eq!(registry.failure_type_count(id, "timeout", None), Some(1));
    // the timeout's latency stays observable in the histogram
    assert_eq!(registry.histogram_count(id), Some(3));
    assert_eq!(registry.histogram_sum_ms(id), Some(30_200));
}

#[test]
fn from_response_builds_http_error_message() {
    let monitor = create_test_monitor("Msg", "https://msg.example", true);
    let ok = MonitorResult::from_response(&monitor, 200, 10, 1);
    assert!(ok.success);
    assert_eq!(ok.error_message, None);
    assert_eq!(ok.status_code, Some(200));

    let not_found = MonitorResult::from_response(&monitor, 404, 10, 1);
    assert!(!not_found.success);
    assert_eq!(not_found.error_message.as_deref(), Some("HTTP 404"));
    assert_eq!(not_found.status_code, Some(404));
}

#[test]
fn classify_error_covers_every_classification() {
    assert_eq!(classify_error(&Some("connect timeout".to_string()), None), "timeout");
    // a timeout mention wins even when a status code exists
    assert_eq!(classify_error(&Some("timeout".to_string()), Some(504)), "timeout");
    assert_eq!(classify_error(&Some("HTTP 500".to_string()), Some(500)), "http_error");
    assert_eq!(classify_error(&None, Some(404)), "http_error");
    assert_eq!(
        classify_error(&Some("dns error: no records found".to_string()), None),
        "dns_error"
    );
    assert_eq!(classify_error(&Some("connection refused".to_string()), None), "connection_error");
    assert_eq!(classify_error(&None, None), "connection_error");
}

#[test]
fn compute_sleep_keeps_cadence() {
    assert_eq!(Worker::compute_sleep_ms(0), 60_000);
    assert_eq!(Worker::compute_sleep_ms(12_345), 47_655);
    assert_eq!(Worker::compute_sleep_ms(59_999), 1);
    assert_eq!(Worker::compute_sleep_ms(60_000), 100);
    assert_eq!(Worker::compute_sleep_ms(3_600_000), 100);
}
