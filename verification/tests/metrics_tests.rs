use sammy_monitor::metrics::MetricsRegistry;
use sammy_monitor::metrics::MonitorMetadata;
use sammy_monitor::MonitorId;
use uuid::Uuid;

fn id_of(u: Uuid) -> MonitorId {
    MonitorId(u.as_u128())
}

#[test]
fn test_metrics_registry_creation() {
    let mut registry = MetricsRegistry::new();
    let monitor_id = id_of(Uuid::new_v4());

    let metadata = MonitorMetadata {
        name: "Test Monitor".to_string(),
        url: "https://example.com".to_string(),
        interval: 60,
    };

    registry.register_monitor(monitor_id, metadata);

    // Registry created successfully
    assert!(registry.is_registered(monitor_id));
}

#[test]
fn test_success_recording() {
    let mut registry = MetricsRegistry::new();
    let monitor_id = id_of(Uuid::new_v4());

    let metadata = MonitorMetadata {
        name: "Success Test".to_string(),
        url: "https://success.com".to_string(),
        interval: 30,
    };

    registry.register_monitor(monitor_id, metadata);
    registry.record_success(monitor_id, 150);

    // Test passes if no panics occur
    assert!(true);
}

#[test]
fn test_failure_recording() {
    let mut registry = MetricsRegistry::new();
    let monitor_id = id_of(Uuid::new_v4());

    let metadata = MonitorMetadata {
        name: "Failure Test".to_string(),
        url: "https://failure.com".to_string(),
        interval: 60,
    };

    registry.register_monitor(monitor_id, metadata);
    registry.record_failure(monitor_id, 5000, "timeout", None);
    registry.record_failure(monitor_id, 200, "http_error", Some(500));

    // Test passes if no panics occur
    assert!(true);
}

fn meta(name: &str) -> MonitorMetadata {
    MonitorMetadata {
        name: name.to_string(),
        url: "https://example.com".to_string(),
        interval: 1,
    }
}

#[test]
fn register_twice_does_not_reset_counters() {
    let mut registry = MetricsRegistry::new();
    let id = MonitorId(42);
    registry.register_monitor(id, meta("first"));
    registry.record_success_at(id, 100, 1111);
    registry.record_success_at(id, 200, 2222);
    assert_eq!(registry.success_count(id), Some(2));

    registry.register_monitor(id, meta("second"));
    assert_eq!(registry.success_count(id), Some(2));
    assert_eq!(registry.histogram_count(id), Some(2));
    assert_eq!(registry.last_success_timestamp(id), Some(2222));
    assert_eq!(registry.up_gauge(id), Some(true));
}

#[test]
fn success_scenario_counters_and_histogram() {
    // interval of one minute, five successes then one instant success
    let mut registry = MetricsRegistry::new();
    let id = MonitorId(1);
    registry.register_monitor(id, meta("target a"));
    for latency in [100u64, 250, 500, 1000, 2500] {
        registry.record_success_at(id, latency, 10_000);
    }
    registry.record_success_at(id, 0, 10_001);

    assert_eq!(registry.success_count(id), Some(6));
    assert_eq!(registry.histogram_count(id), Some(6));
    assert_eq!(registry.histogram_sum_ms(id), Some(4350));
    // bucket bounds in ms: 50, 100, 200, 500, 1000, 2000, 5000, ...
    assert_eq!(registry.histogram_bucket_count(id, 1), Some(2)); // <= 100 ms
    assert_eq!(registry.histogram_bucket_count(id, 3), Some(4)); // <= 500 ms
    assert_eq!(registry.histogram_bucket_count(id, 4), Some(5)); // <= 1 s
    assert_eq!(registry.histogram_bucket_count(id, 6), Some(6)); // <= 5 s
    assert_eq!(registry.histogram_bucket_count(id, 10), Some(6)); // overflow
    assert_eq!(registry.up_gauge(id), Some(true));
}

#[test]
fn failure_scenario_failure_types() {
    let mut registry = MetricsRegistry::new();
    let id = MonitorId(2);
    registry.register_monitor(id, meta("target b"));
    registry.record_failure(id, 5000, "timeout", None);
    registry.record_failure(id, 300, "http_error", Some(404));

    assert_eq!(registry.failure_count(id), Some(2));
    assert_eq!(registry.failure_type_count(id, "timeout", None), Some(1));
    assert_eq!(registry.failure_type_count(id, "http_error", Some(404)), Some(1));
    assert_eq!(registry.failure_type_count(id, "http_error", Some(500)), Some(0));
    assert_eq!(registry.up_gauge(id), Some(false));
    // failures stay visible in the histogram
    assert_eq!(registry.histogram_count(id), Some(2));
    assert_eq!(registry.histogram_sum_ms(id), Some(5300));
}

#[test]
fn recording_unregistered_target_is_no_op() {
    let mut registry = MetricsRegistry::new();
    let registered = MonitorId(10);
    let stranger = MonitorId(11);
    registry.register_monitor(registered, meta("known"));
    registry.record_success_at(registered, 100, 5);

    registry.record_success_at(stranger, 100, 6);
    registry.record_failure(stranger, 100, "timeout", None);

    // no new series, no observable change
    assert!(!registry.is_registered(stranger));
    assert_eq!(registry.success_count(stranger), None);
    assert_eq!(registry.failure_count(stranger), None);
    assert_eq!(registry.up_gauge(stranger), None);
    // the registered target is untouched by the stranger's records
    assert_eq!(registry.success_count(registered), Some(1));
    assert_eq!(registry.failure_count(registered), Some(0));
    assert_eq!(registry.up_gauge(registered), Some(true));
}

#[test]
fn up_gauge_tracks_most_recent_record() {
    let mut registry = MetricsRegistry::new();
    let id = MonitorId(3);
    registry.register_monitor(id, meta("flapping"));
    assert_eq!(registry.up_gauge(id), Some(false));
    registry.record_success_at(id, 100, 1);
    assert_eq!(registry.up_gauge(id), Some(true));
    registry.record_failure(id, 100, "connection_error", None);
    assert_eq!(registry.up_gauge(id), Some(false));
    registry.record_success_at(id, 100, 2);
    assert_eq!(registry.up_gauge(id), Some(true));
    assert_eq!(registry.last_success_timestamp(id), Some(2));
}

#[test]
fn histogram_buckets_cumulative_and_monotone() {
    let mut registry = MetricsRegistry::new();
    let id = MonitorId(4);
    registry.register_monitor(id, meta("hist"));
    let mut previous: Vec<u64> = (0..11)
        .map(|b| registry.histogram_bucket_count(id, b).unwrap())
        .collect();
    for latency in [10u64, 75, 150, 450, 999, 1500, 4999, 9000, 15000, 29000, 50000] {
        registry.record_success_at(id, latency, 1);
        let current: Vec<u64> = (0..11)
            .map(|b| registry.histogram_bucket_count(id, b).unwrap())
            .collect();
        // bucket counts never decrease
        for b in 0..11 {
            assert!(current[b] >= previous[b]);
        }
        // cumulative shape: counts never step down from bucket to bucket
        for b in 0..10 {
            assert!(current[b] <= current[b + 1]);
        }
        // the overflow bucket counts every observation
        assert_eq!(current[10], registry.histogram_count(id).unwrap());
        previous = current;
    }
    assert_eq!(registry.histogram_count(id), Some(11));
    assert_eq!(registry.histogram_bucket_count(id, 0), Some(1)); // 10 ms
    assert_eq!(registry.histogram_bucket_count(id, 9), Some(10)); // all but 50 s
}
