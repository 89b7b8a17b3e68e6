//! The probe scheduler: decides on each cycle which enabled targets are due
//! (based on per-target interval and last-run time), reserves their slot by
//! advancing the last-run timestamp at dispatch time, and routes probe
//! outcomes into the metrics store.
//!
//! Time is carried as plain milliseconds of a monotonic clock for
//! scheduling, and Unix seconds for the last-success timestamp; the
//! surrounding runtime supplies both and performs the HTTP probes
//! themselves.

use crate::metrics::MetadataModel;
use crate::metrics::MetricsRegistry;
use crate::metrics::MonitorMetadata;
use crate::metrics::record_failure_spec;
use crate::metrics::record_success_spec;
use crate::metrics::register_spec;
use crate::settings::MonitorConfig;
use crate::settings::MonitorId;
use crate::settings::Settings;
use crate::text::contains_substr;
use crate::text::http_error_message;
use crate::text::spec_contains_substr;
use crate::text::spec_decimal_digits;
use vstd::prelude::*;

verus! {

/// Length of one scheduler tick in milliseconds: the fixed wall-clock
/// cadence the cycle start times stay aligned to.
pub const CYCLE_MS: u64 = 60000;

/// Minimum sleep between cycles in milliseconds, so a cycle that overruns
/// the cadence never turns into a busy loop.
pub const MIN_SLEEP_MS: u64 = 100;

/// The normalized outcome of one probe, created per check and immediately
/// consumed. `timestamp` is the Unix seconds at which the probe started.
#[derive(Debug)]
pub struct MonitorResult {
    pub monitor_id: MonitorId,
    pub monitor_name: String,
    pub url: String,
    pub success: bool,
    pub response_time_ms: u64,
    pub status_code: Option<u16>,
    pub error_message: Option<String>,
    pub timestamp: u64,
}

impl Clone for MonitorResult {
    fn clone(&self) -> (r: Self)
        ensures
            r == *self,
    {
        MonitorResult {
            monitor_id: self.monitor_id,
            monitor_name: self.monitor_name.clone(),
            url: self.url.clone(),
            success: self.success,
            response_time_ms: self.response_time_ms,
            status_code: self.status_code,
            error_message: match &self.error_message {
                Some(m) => Some(m.clone()),
                None => None,
            },
            timestamp: self.timestamp,
        }
    }
}

/// Whether an HTTP status code counts as success: the 2xx range.
pub open spec fn spec_is_success_status(status_code: u16) -> bool {
    200 <= status_code < 300
}

impl MonitorResult {
    /// The outcome of a probe that received an HTTP response: success is
    /// decided by the status code alone, and a non-success status is
    /// recorded as an `HTTP <status>` message with no transport error.
    pub fn from_response(
        monitor: &MonitorConfig,
        status_code: u16,
        response_time_ms: u64,
        timestamp: u64,
    ) -> (r: MonitorResult)
        ensures
            r.monitor_id == monitor.id,
            r.monitor_name@ == monitor.name@,
            r.url@ == monitor.url@,
            r.success == spec_is_success_status(status_code),
            r.response_time_ms == response_time_ms,
            r.status_code == Some(status_code),
            match r.error_message {
                None => spec_is_success_status(status_code),
                Some(m) => !spec_is_success_status(status_code) && m@ == "HTTP "@
                    + spec_decimal_digits(status_code as nat),
            },
            r.timestamp == timestamp,
    {
        let success = 200 <= status_code && status_code < 300;
        MonitorResult {
            monitor_id: monitor.id,
            monitor_name: monitor.name.clone(),
            url: monitor.url.clone(),
            success,
            response_time_ms,
            status_code: Some(status_code),
            error_message: if success {
                None
            } else {
                Some(http_error_message(status_code))
            },
            timestamp,
        }
    }

    /// The outcome of a probe that failed below HTTP: no status code, the
    /// transport error text captured as data, never an exception. Latency
    /// is still measured end to end, so timeout durations stay observable.
    pub fn from_transport_failure(
        monitor: &MonitorConfig,
        error_message: String,
        response_time_ms: u64,
        timestamp: u64,
    ) -> (r: MonitorResult)
        ensures
            r.monitor_id == monitor.id,
            r.monitor_name@ == monitor.name@,
            r.url@ == monitor.url@,
            r.success == false,
            r.response_time_ms == response_time_ms,
            r.status_code is None,
            r.error_message == Some(error_message),
            r.timestamp == timestamp,
    {
        MonitorResult {
            monitor_id: monitor.id,
            monitor_name: monitor.name.clone(),
            url: monitor.url.clone(),
            success: false,
            response_time_ms,
            status_code: None,
            error_message: Some(error_message),
            timestamp,
        }
    }
}

/// The classification of a failed probe, derived from the failure text and
/// the status code: `timeout` when the text mentions one, otherwise
/// `http_error` when a status code exists, otherwise `dns_error` when the
/// text mentions dns, otherwise `connection_error`.
pub open spec fn spec_classify(
    error_message: Option<Seq<char>>,
    status_code: Option<u16>,
) -> Seq<char> {
    if error_message is Some && spec_contains_substr(error_message->0, "timeout"@) {
        "timeout"@
    } else if status_code is Some {
        "http_error"@
    } else if error_message is Some && spec_contains_substr(error_message->0, "dns"@) {
        "dns_error"@
    } else {
        "connection_error"@
    }
}

/// Classify a failed probe's error for the failure-type counter.
pub fn classify_error(error_message: &Option<String>, status_code: Option<u16>) -> (r:
    &'static str)
    ensures
        r@ == spec_classify(error_message.deep_view(), status_code),
{
    match error_message {
        Some(msg) => {
            if contains_substr(msg.as_str(), "timeout") {
                "timeout"
            } else if status_code.is_some() {
                "http_error"
            } else if contains_substr(msg.as_str(), "dns") {
                "dns_error"
            } else {
                "connection_error"
            }
        },
        None => {
            if status_code.is_some() {
                "http_error"
            } else {
                "connection_error"
            }
        },
    }
}

spec fn runs_map(s: Seq<(MonitorId, u64)>) -> Map<u128, u64>
    decreases s.len(),
{
    if s.len() == 0 {
        Map::empty()
    } else {
        runs_map(s.drop_last()).insert(s.last().0.0, s.last().1)
    }
}

spec fn run_ids_unique(s: Seq<(MonitorId, u64)>) -> bool {
    forall|i: int, j: int|
        0 <= i < s.len() && 0 <= j < s.len() && i != j ==> s[i].0.0 != s[j].0.0
}

proof fn lemma_rm_contains(s: Seq<(MonitorId, u64)>, k: u128)
    ensures
        runs_map(s).contains_key(k) <==> exists|i: int| 0 <= i < s.len() && s[i].0.0 == k,
    decreases s.len(),
{
    if s.len() > 0 {
        lemma_rm_contains(s.drop_last(), k);
        if s.last().0.0 == k {
            assert(s[s.len() - 1].0.0 == k);
        } else {
            if runs_map(s).contains_key(k) {
                let i = choose|i: int| 0 <= i < s.drop_last().len() && s.drop_last()[i].0.0 == k;
                assert(s[i].0.0 == k);
            }
            if exists|i: int| 0 <= i < s.len() && s[i].0.0 == k {
                let i = choose|i: int| 0 <= i < s.len() && s[i].0.0 == k;
                assert(i < s.len() - 1);
                assert(s.drop_last()[i].0.0 == k);
            }
        }
    }
}

proof fn lemma_rm_index(s: Seq<(MonitorId, u64)>, i: int)
    requires
        run_ids_unique(s),
        0 <= i < s.len(),
    ensures
        runs_map(s).contains_key(s[i].0.0),
        runs_map(s)[s[i].0.0] == s[i].1,
    decreases s.len(),
{
    if i == s.len() - 1 {
    } else {
        assert(run_ids_unique(s.drop_last())) by {
            assert(forall|a: int, b: int|
                0 <= a < s.drop_last().len() && 0 <= b < s.drop_last().len() && a != b
                    ==> s.drop_last()[a].0.0 != s.drop_last()[b].0.0);
        }
        assert(s.drop_last()[i] == s[i]);
        lemma_rm_index(s.drop_last(), i);
        assert(s.last().0.0 != s[i].0.0);
    }
}

proof fn lemma_rm_update(s: Seq<(MonitorId, u64)>, i: int, v: u64)
    requires
        run_ids_unique(s),
        0 <= i < s.len(),
    ensures
        runs_map(s.update(i, (s[i].0, v))) == runs_map(s).insert(s[i].0.0, v),
    decreases s.len(),
{
    let t = s.update(i, (s[i].0, v));
    if i == s.len() - 1 {
        assert(t.drop_last() =~= s.drop_last());
        assert(runs_map(t) =~= runs_map(s).insert(s[i].0.0, v));
    } else {
        assert(run_ids_unique(s.drop_last())) by {
            assert(forall|a: int, b: int|
                0 <= a < s.drop_last().len() && 0 <= b < s.drop_last().len() && a != b
                    ==> s.drop_last()[a].0.0 != s.drop_last()[b].0.0);
        }
        assert(s.drop_last()[i] == s[i]);
        lemma_rm_update(s.drop_last(), i, v);
        assert(t.drop_last() =~= s.drop_last().update(i, (s[i].0, v)));
        assert(t.last() == s.last());
        assert(s.last().0.0 != s[i].0.0);
        assert(runs_map(t) =~= runs_map(s).insert(s[i].0.0, v));
    }
}

/// Milliseconds elapsed from a recorded last-run time to now, saturating
/// at zero.
pub open spec fn spec_elapsed_ms(last_ms: u64, now_ms: u64) -> int {
    if now_ms >= last_ms {
        now_ms - last_ms
    } else {
        0
    }
}

/// A target's check interval in milliseconds (`interval` is in minutes).
pub open spec fn spec_interval_ms(interval_minutes: u64) -> int {
    interval_minutes * 60000
}

/// Whether a target is due on the tick at `now_ms`: enabled, and either
/// never probed before (the first check fires immediately) or at least its
/// interval has elapsed since its last dispatch.
pub open spec fn spec_is_due(m: MonitorConfig, last_runs: Map<u128, u64>, now_ms: u64) -> bool {
    m.enabled && (!last_runs.contains_key(m.id.0) || spec_elapsed_ms(last_runs[m.id.0], now_ms)
        >= spec_interval_ms(m.interval))
}

/// Whether the cycle at `now_ms` dispatches the target with id `k`.
pub open spec fn spec_dispatched(
    monitors: Seq<MonitorConfig>,
    last_runs: Map<u128, u64>,
    now_ms: u64,
    k: u128,
) -> bool {
    exists|i: int|
        0 <= i < monitors.len() && (#[trigger] monitors[i]).id.0 == k && spec_is_due(
            monitors[i],
            last_runs,
            now_ms,
        )
}

/// The metadata handed to the metrics store for one target.
pub open spec fn spec_meta_of(m: MonitorConfig) -> MetadataModel {
    MetadataModel { name: m.name@, url: m.url@, interval: m.interval }
}

/// The metrics store after every target of the list has been registered,
/// in order.
pub open spec fn spec_register_all(
    m: Map<u128, crate::metrics::BundleModel>,
    monitors: Seq<MonitorConfig>,
) -> Map<u128, crate::metrics::BundleModel>
    decreases monitors.len(),
{
    if monitors.len() == 0 {
        m
    } else {
        register_spec(
            spec_register_all(m, monitors.drop_last()),
            monitors.last().id.0,
            spec_meta_of(monitors.last()),
        )
    }
}

/// The scheduler. It owns the only mutable scheduling state: the map from
/// target id to the time of that target's last dispatch, created on first
/// dispatch and advanced on every later one, never removed.
pub struct Worker {
    pub settings: Settings,
    last_run_times: Vec<(MonitorId, u64)>,
}

impl Worker {
    /// The scheduler's view of its last-run times, as a map from target id
    /// to the tick (in milliseconds) that last dispatched the target.
    pub closed spec fn last_runs(&self) -> Map<u128, u64> {
        runs_map(self.last_run_times@)
    }

    /// The scheduler's settings, for use in contracts.
    pub closed spec fn spec_settings(&self) -> Settings {
        self.settings
    }

    pub closed spec fn wf(&self) -> bool {
        &&& self.settings.wf()
        &&& run_ids_unique(self.last_run_times@)
    }

    /// A new scheduler over the given settings: every monitor is registered
    /// with the metrics store (so its bundle exists before its first probe)
    /// and no target has run yet.
    pub fn new(settings: Settings, registry: &mut MetricsRegistry) -> (w: Worker)
        requires
            settings.wf(),
            old(registry).wf(),
        ensures
            w.wf(),
            w.spec_settings() == settings,
            w.last_runs() == Map::<u128, u64>::empty(),
            final(registry).wf(),
            final(registry)@ == spec_register_all(old(registry)@, settings.monitors@),
    {
        let ghost m0 = registry@;
        let n = settings.monitors.len();
        let mut i: usize = 0;
        while i < n
            invariant
                old(registry).wf(),
                registry.wf(),
                n == settings.monitors@.len(),
                i <= n,
                registry@ == spec_register_all(m0, settings.monitors@.take(i as int)),
            decreases n - i,
        {
            let mc = &settings.monitors[i];
            let metadata = MonitorMetadata {
                name: mc.name.clone(),
                url: mc.url.clone(),
                interval: mc.interval,
            };
            registry.register_monitor(mc.id, metadata);
            proof {
                assert(settings.monitors@.take(i + 1).drop_last() =~= settings.monitors@.take(
                    i as int,
                ));
                assert(settings.monitors@.take(i + 1).last() == settings.monitors@[i as int]);
            }
            i = i + 1;
        }
        proof {
            assert(settings.monitors@.take(n as int) =~= settings.monitors@);
        }
        Worker { settings, last_run_times: Vec::new() }
    }

    fn find_run_index(&self, id: MonitorId) -> (r: Option<usize>)
        ensures
            match r {
                Some(i) => i < self.last_run_times@.len() && self.last_run_times@[i as int].0
                    == id,
                None => forall|i: int|
                    0 <= i < self.last_run_times@.len() ==> self.last_run_times@[i].0 != id,
            },
    {
        let n = self.last_run_times.len();
        let mut i: usize = 0;
        while i < n
            invariant
                n == self.last_run_times@.len(),
                i <= n,
                forall|j: int| 0 <= j < i ==> self.last_run_times@[j].0 != id,
            decreases n - i,
        {
            if self.last_run_times[i].0 == id {
                return Some(i);
            }
            i = i + 1;
        }
        None
    }

    /// How many targets have been dispatched at least once.
    pub fn last_run_count(&self) -> (r: usize)
        requires
            self.wf(),
        ensures
            r == self.last_runs().dom().len(),
    {
        proof {
            lemma_runs_map_len(self.last_run_times@);
        }
        self.last_run_times.len()
    }

    /// The tick that last dispatched this target, if it ever was.
    pub fn last_run_time(&self, id: MonitorId) -> (r: Option<u64>)
        requires
            self.wf(),
        ensures
            r == if self.last_runs().contains_key(id.0) {
                Some(self.last_runs()[id.0])
            } else {
                None::<u64>
            },
    {
        proof {
            lemma_rm_contains(self.last_run_times@, id.0);
        }
        match self.find_run_index(id) {
            Some(i) => {
                proof {
                    lemma_rm_index(self.last_run_times@, i as int);
                }
                Some(self.last_run_times[i].1)
            },
            None => None,
        }
    }

    /// One cycle's due detection. Every enabled target whose interval has
    /// elapsed (or that never ran) is returned, in configuration order, and
    /// its last-run time is advanced to `now_ms` immediately — the slot is
    /// reserved at dispatch time, so a slow probe cannot cause a
    /// re-dispatch on the next tick. Disabled targets are skipped entirely
    /// and acquire no state.
    pub fn check_due_monitors(&mut self, now_ms: u64) -> (due: Vec<MonitorConfig>)
        requires
            old(self).wf(),
        ensures
            final(self).wf(),
            final(self).spec_settings() == old(self).spec_settings(),
            due@ == old(self).spec_settings().monitors@.filter(
                |m: MonitorConfig| spec_is_due(m, old(self).last_runs(), now_ms),
            ),
            forall|k: u128|
                #[trigger] final(self).last_runs().contains_key(k) <==> (old(
                    self,
                ).last_runs().contains_key(k) || spec_dispatched(
                    old(self).spec_settings().monitors@,
                    old(self).last_runs(),
                    now_ms,
                    k,
                )),
            forall|k: u128|
                spec_dispatched(
                    old(self).spec_settings().monitors@,
                    old(self).last_runs(),
                    now_ms,
                    k,
                ) ==> #[trigger] final(self).last_runs()[k] == now_ms,
            forall|k: u128|
                old(self).last_runs().contains_key(k) && !spec_dispatched(
                    old(self).spec_settings().monitors@,
                    old(self).last_runs(),
                    now_ms,
                    k,
                ) ==> #[trigger] final(self).last_runs()[k] == old(self).last_runs()[k],
    {
        let ghost last0 = self.last_runs();
        let ghost mons = self.settings.monitors@;
        let mut due: Vec<MonitorConfig> = Vec::new();
        let n = self.settings.monitors.len();
        let mut mi: usize = 0;
        while mi < n
            invariant
                self.wf(),
                self.settings == old(self).settings,
                mons == self.settings.monitors@,
                last0 == old(self).last_runs(),
                n == mons.len(),
                mi <= n,
                due@ == mons.take(mi as int).filter(
                    |m: MonitorConfig| spec_is_due(m, last0, now_ms),
                ),
                forall|k: u128|
                    #[trigger] self.last_runs().contains_key(k) <==> (last0.contains_key(k)
                        || spec_dispatched(mons.take(mi as int), last0, now_ms, k)),
                forall|k: u128|
                    spec_dispatched(mons.take(mi as int), last0, now_ms, k)
                        ==> #[trigger] self.last_runs()[k] == now_ms,
                forall|k: u128|
                    last0.contains_key(k) && !spec_dispatched(mons.take(mi as int), last0, now_ms, k)
                        ==> #[trigger] self.last_runs()[k] == last0[k],
            decreases n - mi,
        {
            let m = self.settings.monitors[mi].clone();
            proof {
                assert(m == mons[mi as int]);
                assert(!spec_dispatched(mons.take(mi as int), last0, now_ms, m.id.0)) by {
                    if spec_dispatched(mons.take(mi as int), last0, now_ms, m.id.0) {
                        let i = choose|i: int|
                            0 <= i < mons.take(mi as int).len() && (#[trigger] mons.take(
                                mi as int,
                            )[i]).id.0 == m.id.0 && spec_is_due(
                                mons.take(mi as int)[i],
                                last0,
                                now_ms,
                            );
                        assert(mons[i].id == mons[mi as int].id);
                    }
                }
            }
            let idx = self.find_run_index(m.id);
            let is_due: bool = if !m.enabled {
                false
            } else {
                match idx {
                    Some(ri) => {
                        proof {
                            lemma_rm_index(self.last_run_times@, ri as int);
                        }
                        let last = self.last_run_times[ri].1;
                        proof {
                            assert(self.last_runs().contains_key(m.id.0));
                            assert(self.last_runs()[m.id.0] == last);
                            assert(last0.contains_key(m.id.0));
                            assert(last0[m.id.0] == last);
                        }
                        let elapsed = now_ms.saturating_sub(last);
                        let due_now = (elapsed as u128) >= (m.interval as u128) * 60000u128;
                        proof {
                            assert(elapsed as int == spec_elapsed_ms(last, now_ms));
                            assert(due_now == (spec_elapsed_ms(last, now_ms) >= spec_interval_ms(
                                m.interval,
                            )));
                        }
                        due_now
                    },
                    None => {
                        proof {
                            lemma_rm_contains(self.last_run_times@, m.id.0);
                            assert(!self.last_runs().contains_key(m.id.0));
                            assert(!last0.contains_key(m.id.0));
                        }
                        true
                    },
                }
            };
            proof {
                assert(is_due == spec_is_due(mons[mi as int], last0, now_ms));
            }
            if is_due {
                let ghost s_pre = self.last_run_times@;
                match idx {
                    Some(ri) => {
                        let e = &mut self.last_run_times[ri];
                        e.1 = now_ms;
                        proof {
                            lemma_rm_update(s_pre, ri as int, now_ms);
                            assert(run_ids_unique(self.last_run_times@)) by {
                                assert(forall|a: int, b: int|
                                    0 <= a < self.last_run_times@.len() && 0 <= b
                                        < self.last_run_times@.len() && a != b
                                        ==> self.last_run_times@[a].0.0
                                        != self.last_run_times@[b].0.0);
                            }
                        }
                    },
                    None => {
                        self.last_run_times.push((m.id, now_ms));
                        proof {
                            assert(self.last_run_times@.drop_last() =~= s_pre);
                            assert(run_ids_unique(self.last_run_times@)) by {
                                assert(forall|a: int, b: int|
                                    0 <= a < self.last_run_times@.len() && 0 <= b
                                        < self.last_run_times@.len() && a != b
                                        ==> self.last_run_times@[a].0.0
                                        != self.last_run_times@[b].0.0);
                            }
                        }
                    },
                }
                due.push(m);
            }
            proof {
                assert(mons.take(mi + 1).drop_last() =~= mons.take(mi as int));
                assert(mons.take(mi + 1).last() == mons[mi as int]);
                reveal(Seq::filter);
                assert forall|k: u128| #[trigger]
                    spec_dispatched(mons.take(mi + 1), last0, now_ms, k) implies (spec_dispatched(
                    mons.take(mi as int),
                    last0,
                    now_ms,
                    k,
                ) || (k == mons[mi as int].id.0 && spec_is_due(
                    mons[mi as int],
                    last0,
                    now_ms,
                ))) by {
                    let i = choose|i: int|
                        0 <= i < mons.take(mi + 1).len() && (#[trigger] mons.take(mi + 1)[i]).id.0
                            == k && spec_is_due(mons.take(mi + 1)[i], last0, now_ms);
                    if i < mi {
                        assert(mons.take(mi as int)[i].id.0 == k);
                    }
                }
                assert forall|k: u128|
                    (spec_dispatched(mons.take(mi as int), last0, now_ms, k) || (k
                        == mons[mi as int].id.0 && spec_is_due(
                        mons[mi as int],
                        last0,
                        now_ms,
                    ))) implies #[trigger] spec_dispatched(
                    mons.take(mi + 1),
                    last0,
                    now_ms,
                    k,
                ) by {
                    if spec_dispatched(mons.take(mi as int), last0, now_ms, k) {
                        let i = choose|i: int|
                            0 <= i < mons.take(mi as int).len() && (#[trigger] mons.take(
                                mi as int,
                            )[i]).id.0 == k && spec_is_due(mons.take(mi as int)[i], last0, now_ms);
                        assert(mons.take(mi + 1)[i].id.0 == k);
                        assert(spec_is_due(mons.take(mi + 1)[i], last0, now_ms));
                    } else {
                        assert(mons.take(mi + 1)[mi as int].id.0 == k);
                        assert(spec_is_due(mons.take(mi + 1)[mi as int], last0, now_ms));
                    }
                }
            }
            mi = mi + 1;
        }
        proof {
            assert(mons.take(n as int) =~= mons);
        }
        due
    }

    /// How long to sleep after a cycle that took `cycle_elapsed_ms`: the
    /// remainder of the tick cadence, but never less than the minimum
    /// sleep, so ticks stay aligned to the cadence without busy-looping.
    pub fn compute_sleep_ms(cycle_elapsed_ms: u64) -> (r: u64)
        ensures
            r == if cycle_elapsed_ms < CYCLE_MS {
                (CYCLE_MS - cycle_elapsed_ms) as u64
            } else {
                MIN_SLEEP_MS
            },
    {
        if cycle_elapsed_ms < CYCLE_MS {
            CYCLE_MS - cycle_elapsed_ms
        } else {
            MIN_SLEEP_MS
        }
    }

    /// Route one probe outcome into the metrics store: a success records
    /// latency, counter, gauge and timestamp; a failure is classified first
    /// and then recorded with its classification and status code.
    pub fn record_metrics(&self, registry: &mut MetricsRegistry, result: &MonitorResult)
        requires
            old(registry).wf(),
        ensures
            final(registry).wf(),
            result.success ==> exists|t: u64|
                final(registry)@ == record_success_spec(
                    old(registry)@,
                    result.monitor_id.0,
                    result.response_time_ms,
                    t,
                ),
            !result.success ==> final(registry)@ == record_failure_spec(
                old(registry)@,
                result.monitor_id.0,
                result.response_time_ms,
                spec_classify(result.error_message.deep_view(), result.status_code),
                result.status_code,
            ),
    {
        if result.success {
            registry.record_success(result.monitor_id, result.response_time_ms);
        } else {
            let error_type = classify_error(&result.error_message, result.status_code);
            registry.record_failure(
                result.monitor_id,
                result.response_time_ms,
                error_type,
                result.status_code,
            );
        }
    }
}

proof fn lemma_runs_map_len(s: Seq<(MonitorId, u64)>)
    requires
        run_ids_unique(s),
    ensures
        runs_map(s).dom().len() == s.len(),
        runs_map(s).dom().finite(),
    decreases s.len(),
{
    if s.len() > 0 {
        assert(run_ids_unique(s.drop_last())) by {
            assert(forall|a: int, b: int|
                0 <= a < s.drop_last().len() && 0 <= b < s.drop_last().len() && a != b
                    ==> s.drop_last()[a].0.0 != s.drop_last()[b].0.0);
        }
        lemma_runs_map_len(s.drop_last());
        lemma_rm_contains(s.drop_last(), s.last().0.0);
        assert(!runs_map(s.drop_last()).contains_key(s.last().0.0)) by {
            if runs_map(s.drop_last()).contains_key(s.last().0.0) {
                let i = choose|i: int|
                    0 <= i < s.drop_last().len() && s.drop_last()[i].0.0 == s.last().0.0;
                assert(s[i].0.0 == s[s.len() - 1].0.0);
            }
        }
        assert(runs_map(s).dom() =~= runs_map(s.drop_last()).dom().insert(s.last().0.0));
        vstd::set::axiom_set_insert_len(runs_map(s.drop_last()).dom(), s.last().0.0);
    }
}

/// Law: an enabled target last dispatched at tick `t0` is due again exactly
/// on the first tick at or after `t0` plus its interval — never before, and
/// always from then on — so the schedule does not drift by the probes' own
/// latency.
pub proof fn lemma_dispatch_exactly_at_interval(
    m: MonitorConfig,
    last_runs: Map<u128, u64>,
    now_ms: u64,
)
    requires
        m.enabled,
        last_runs.contains_key(m.id.0),
        now_ms >= last_runs[m.id.0],
    ensures
        spec_is_due(m, last_runs, now_ms) <==> now_ms >= last_runs[m.id.0] + spec_interval_ms(
            m.interval,
        ),
{
}

/// Law: a disabled target is never due, on any tick and in any scheduling
/// state, so it is never dispatched and no probe of it is ever recorded.
pub proof fn lemma_disabled_never_due(m: MonitorConfig, last_runs: Map<u128, u64>, now_ms: u64)
    requires
        !m.enabled,
    ensures
        !spec_is_due(m, last_runs, now_ms),
{
}

/// Law: a target that never ran is due as soon as it is enabled: the first
/// check fires immediately on the first cycle.
pub proof fn lemma_first_run_is_due(m: MonitorConfig, last_runs: Map<u128, u64>, now_ms: u64)
    requires
        m.enabled,
        !last_runs.contains_key(m.id.0),
    ensures
        spec_is_due(m, last_runs, now_ms),
{
}

} // verus!
