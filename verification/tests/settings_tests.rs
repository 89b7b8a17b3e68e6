use sammy_monitor::MonitorConfig;
use sammy_monitor::MonitorId;
use sammy_monitor::Settings;

#[test]
fn test_monitor_config_fields() {
    let monitor = MonitorConfig {
        id: MonitorId(
            uuid::Uuid::parse_str("550e8400-e29b-41d4-a716-446655440004")
                .unwrap()
                .as_u128(),
        ),
        name: "Test Monitor".to_string(),
        url: "https://example.org".to_string(),
        interval: 120,
        enabled: true,
    };

    assert_eq!(monitor.name, "Test Monitor");
    assert_eq!(monitor.url, "https://example.org");
    assert_eq!(monitor.interval, 120);
    assert!(monitor.enabled);
}

#[test]
fn test_monitor_config_enable_disable() {
    let mut monitor = MonitorConfig {
        id: MonitorId(
            uuid::Uuid::parse_str("550e8400-e29b-41d4-a716-44665544000e")
                .unwrap()
                .as_u128(),
        ),
        name: "Toggle Monitor".to_string(),
        url: "https://toggle.com".to_string(),
        interval: 60,
        enabled: true,
    };

    assert!(monitor.enabled);

    // Disable the monitor
    monitor.enabled = false;
    assert!(!monitor.enabled);

    // Re-enable the monitor
    monitor.enabled = true;
    assert!(monitor.enabled);
}

#[test]
fn prometheus_url_defaults_to_localhost() {
    let settings = Settings { monitors: vec![], prometheus_url: None };
    assert_eq!(settings.get_prometheus_url(), "http://localhost:9090");
}

#[test]
fn prometheus_url_uses_configured_value() {
    let settings = Settings {
        monitors: vec![],
        prometheus_url: Some("http://metrics.internal:9090".to_string()),
    };
    assert_eq!(settings.get_prometheus_url(), "http://metrics.internal:9090");
}

#[test]
fn monitor_config_clone_keeps_fields() {
    let monitor = MonitorConfig {
        id: MonitorId(99),
        name: "Cloned".to_string(),
        url: "https://clone.example".to_string(),
        interval: 5,
        enabled: false,
    };
    let copy = monitor.clone();
    assert_eq!(copy.id, monitor.id);
    assert_eq!(copy.name, monitor.name);
    assert_eq!(copy.url, monitor.url);
    assert_eq!(copy.interval, monitor.interval);
    assert_eq!(copy.enabled, monitor.enabled);
}
