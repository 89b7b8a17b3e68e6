//! Monitor configuration: the validated, immutable list of targets the
//! scheduler works from. Each target carries a process-unique id, a display
//! name, a URL, a check interval in minutes, and an enabled flag.

use vstd::prelude::*;

verus! {

/// The opaque identity of one monitored target: a 128-bit value (the
/// canonical form used by the configuration loader is a UUID, carried here
/// as its 128-bit integer value).
#[derive(Clone, Copy, PartialEq, Eq, Structural, Hash, Debug)]
pub struct MonitorId(pub u128);

/// Configuration of one monitored target. `interval` is the check cadence
/// in minutes; the scheduler converts it to milliseconds when deciding
/// whether a target is due.
pub struct MonitorConfig {
    pub id: MonitorId,
    pub name: String,
    pub url: String,
    pub interval: u64,
    pub enabled: bool,
}

impl Clone for MonitorConfig {
    fn clone(&self) -> (r: Self)
        ensures
            r == *self,
    {
        MonitorConfig {
            id: self.id,
            name: self.name.clone(),
            url: self.url.clone(),
            interval: self.interval,
            enabled: self.enabled,
        }
    }
}

/// The whole loaded configuration: the target list and the base URL of the
/// time-series system that serves historical queries.
pub struct Settings {
    pub monitors: Vec<MonitorConfig>,
    pub prometheus_url: Option<String>,
}

impl Settings {
    /// Target ids are process-unique; the configuration loader enforces
    /// this before the settings reach the core, and the scheduler and the
    /// metrics store assume it.
    pub open spec fn wf(&self) -> bool {
        forall|i: int, j: int|
            0 <= i < self.monitors@.len() && 0 <= j < self.monitors@.len() && i != j
                ==> #[trigger] self.monitors@[i].id != #[trigger] self.monitors@[j].id
    }

    /// The base URL for historical queries, falling back to the local
    /// default when the configuration names none.
    pub fn get_prometheus_url(&self) -> (r: String)
        ensures
            match self.prometheus_url {
                Some(u) => r@ == u@,
                None => r@ == "http://localhost:9090"@,
            },
    {
        match &self.prometheus_url {
            Some(u) => u.clone(),
            None => String::from_str("http://localhost:9090"),
        }
    }
}

impl Clone for Settings {
    fn clone(&self) -> (r: Self)
        ensures
            r.monitors@ == self.monitors@,
            r.prometheus_url == self.prometheus_url,
    {
        let mut monitors: Vec<MonitorConfig> = Vec::new();
        let mut i: usize = 0;
        while i < self.monitors.len()
            invariant
                i <= self.monitors@.len(),
                monitors@ == self.monitors@.take(i as int),
            decreases self.monitors@.len() - i,
        {
            monitors.push(self.monitors[i].clone());
            proof {
                assert(monitors@ =~= self.monitors@.take(i + 1 as int));
            }
            i = i + 1;
        }
        proof {
            assert(monitors@ =~= self.monitors@);
        }
        let prometheus_url = match &self.prometheus_url {
            Some(u) => Some(u.clone()),
            None => None,
        };
        Settings { monitors, prometheus_url }
    }
}

} // verus!
