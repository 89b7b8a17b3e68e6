//! An HTTP endpoint monitor: a probe scheduler that decides which targets
//! are due on each cycle, and a metrics store that aggregates probe outcomes
//! into counters, gauges and histograms for Prometheus-style exposition.

pub mod dashboard;
pub mod histogram;
pub mod metrics;
pub mod prometheus_client;
pub mod settings;
pub mod text;
pub mod worker;

pub use settings::MonitorConfig;
pub use settings::MonitorId;
pub use settings::Settings;
