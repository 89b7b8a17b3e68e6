use sammy_monitor::dashboard::Dashboard;
use sammy_monitor::prometheus_client::PrometheusClient;

#[test]
fn query_url_percent_encodes_the_query() {
    let client = PrometheusClient { url: "http://localhost:9090".to_string() };
    let url = client.query_url(
        "group by (monitor_id, monitor_name, monitor_url) (http_monitor_up)",
    );
    assert_eq!(
        url,
        "http://localhost:9090/api/v1/query?query=group%20by%20%28monitor_id%2C%20monitor_name%2C%20monitor_url%29%20%28http_monitor_up%29"
    );
}

#[test]
fn query_url_passes_safe_characters_through() {
    let client = PrometheusClient { url: "http://foo:9090".to_string() };
    assert_eq!(
        client.query_url("http_monitor_up"),
        "http://foo:9090/api/v1/query?query=http_monitor_up"
    );
}

#[test]
fn dashboard_handle_is_constructed() {
    let _dashboard = Dashboard::get_metrics();
}
