//! The metrics store: an aggregation of probe outcomes into per-target
//! instruments (latency histogram, success/failure counters, failure-type
//! counters, up/down gauge, last-success timestamp), consumed by a pull-based
//! exposition endpoint.
//!
//! The store is a mapping from target identity to one `MetricsBundle`,
//! created exactly once by explicit registration. Recording against a target
//! that was never registered is a silent no-op: it never fabricates state.
//! Counters saturate at `u64::MAX` rather than wrapping, so they are
//! monotone for the life of the process.

use crate::histogram::Histogram;
use crate::histogram::HistogramModel;
use crate::histogram::sat_add_u64;
use crate::settings::MonitorId;
use vstd::prelude::*;

verus! {

/// Display metadata of one monitored target, used as exposition labels.
/// `interval` is the check cadence in minutes.
#[derive(Debug)]
pub struct MonitorMetadata {
    pub name: String,
    pub url: String,
    pub interval: u64,
}

/// The mathematical value of a target's metadata.
pub ghost struct MetadataModel {
    pub name: Seq<char>,
    pub url: Seq<char>,
    pub interval: u64,
}

impl View for MonitorMetadata {
    type V = MetadataModel;

    open spec fn view(&self) -> MetadataModel {
        MetadataModel { name: self.name@, url: self.url@, interval: self.interval }
    }
}

impl Clone for MonitorMetadata {
    fn clone(&self) -> (r: Self)
        ensures
            r == *self,
    {
        MonitorMetadata {
            name: self.name.clone(),
            url: self.url.clone(),
            interval: self.interval,
        }
    }
}

/// The mathematical value of one target's instrument bundle.
///
/// `failure_types` maps a classification and a status code (0 stands for
/// "no status code": transport failures carry none) to the count of failures
/// so classified. `up` is the up/down gauge; `last_success_ts` the Unix
/// seconds of the most recent successful probe, 0 before the first one.
pub ghost struct BundleModel {
    pub meta: MetadataModel,
    pub hist: HistogramModel,
    pub success_count: u64,
    pub failure_count: u64,
    pub failure_types: Map<(Seq<char>, u16), u64>,
    pub up: bool,
    pub last_success_ts: u64,
}

impl BundleModel {
    pub open spec fn wf(self) -> bool {
        self.hist.wf()
    }
}

/// The bundle a target starts with at registration: empty histogram, zero
/// counters, no failure types, gauge down, no success seen.
pub open spec fn fresh_bundle(meta: MetadataModel) -> BundleModel {
    BundleModel {
        meta,
        hist: HistogramModel::empty(),
        success_count: 0,
        failure_count: 0,
        failure_types: Map::empty(),
        up: false,
        last_success_ts: 0,
    }
}

/// The sentinel stored in a failure-type key when a failure carries no HTTP
/// status code.
pub open spec fn status_or_sentinel(status_code: Option<u16>) -> u16 {
    match status_code {
        Some(c) => c,
        None => 0,
    }
}

/// A bundle after one successful probe: the latency is recorded in the
/// histogram, the success counter grows by one, the gauge goes up, and the
/// last-success timestamp is set to `now_s`.
pub open spec fn success_bundle(b: BundleModel, latency_ms: u64, now_s: u64) -> BundleModel {
    BundleModel {
        meta: b.meta,
        hist: b.hist.record(latency_ms),
        success_count: sat_add_u64(b.success_count, 1),
        failure_count: b.failure_count,
        failure_types: b.failure_types,
        up: true,
        last_success_ts: now_s,
    }
}

/// A bundle after one failed probe: the latency is still recorded in the
/// histogram (timeout durations stay observable), the failure counter and
/// the failure-type counter for `(error_type, status)` grow by one (the
/// latter starting from zero if the type was never seen), and the gauge goes
/// down.
pub open spec fn failure_bundle(
    b: BundleModel,
    latency_ms: u64,
    error_type: Seq<char>,
    status_code: Option<u16>,
) -> BundleModel {
    let key = (error_type, status_or_sentinel(status_code));
    let prev = if b.failure_types.contains_key(key) {
        b.failure_types[key]
    } else {
        0u64
    };
    BundleModel {
        meta: b.meta,
        hist: b.hist.record(latency_ms),
        success_count: b.success_count,
        failure_count: sat_add_u64(b.failure_count, 1),
        failure_types: b.failure_types.insert(key, sat_add_u64(prev, 1)),
        up: false,
        last_success_ts: b.last_success_ts,
    }
}

/// The store after `register`: idempotent creation, first call wins; a
/// target already present keeps its bundle untouched.
pub open spec fn register_spec(
    m: Map<u128, BundleModel>,
    id: u128,
    meta: MetadataModel,
) -> Map<u128, BundleModel> {
    if m.contains_key(id) {
        m
    } else {
        m.insert(id, fresh_bundle(meta))
    }
}

/// The store after `record_success` at time `now_s`: a no-op for an
/// unregistered target.
pub open spec fn record_success_spec(
    m: Map<u128, BundleModel>,
    id: u128,
    latency_ms: u64,
    now_s: u64,
) -> Map<u128, BundleModel> {
    if m.contains_key(id) {
        m.insert(id, success_bundle(m[id], latency_ms, now_s))
    } else {
        m
    }
}

/// The store after `record_failure`: a no-op for an unregistered target.
pub open spec fn record_failure_spec(
    m: Map<u128, BundleModel>,
    id: u128,
    latency_ms: u64,
    error_type: Seq<char>,
    status_code: Option<u16>,
) -> Map<u128, BundleModel> {
    if m.contains_key(id) {
        m.insert(id, failure_bundle(m[id], latency_ms, error_type, status_code))
    } else {
        m
    }
}

/// One lazily created failure-type counter: how many failures of this
/// classification (and status code, 0 when none) were recorded.
struct FailureKey {
    error_type: String,
    status_code: u16,
}

spec fn failure_key_of(e: (FailureKey, u64)) -> (Seq<char>, u16) {
    (e.0.error_type@, e.0.status_code)
}

spec fn failure_counts_map(s: Seq<(FailureKey, u64)>) -> Map<(Seq<char>, u16), u64>
    decreases s.len(),
{
    if s.len() == 0 {
        Map::empty()
    } else {
        failure_counts_map(s.drop_last()).insert(failure_key_of(s.last()), s.last().1)
    }
}

spec fn failure_keys_unique(s: Seq<(FailureKey, u64)>) -> bool {
    forall|i: int, j: int|
        0 <= i < s.len() && 0 <= j < s.len() && i != j ==> failure_key_of(s[i]) != failure_key_of(
            s[j],
        )
}

proof fn lemma_fc_contains(s: Seq<(FailureKey, u64)>, k: (Seq<char>, u16))
    ensures
        failure_counts_map(s).contains_key(k) <==> exists|i: int|
            0 <= i < s.len() && failure_key_of(s[i]) == k,
    decreases s.len(),
{
    if s.len() > 0 {
        lemma_fc_contains(s.drop_last(), k);
        if failure_key_of(s.last()) == k {
            assert(failure_key_of(s[s.len() - 1]) == k);
        } else {
            if failure_counts_map(s).contains_key(k) {
                let i = choose|i: int| 0 <= i < s.drop_last().len() && failure_key_of(
                    s.drop_last()[i],
                ) == k;
                assert(failure_key_of(s[i]) == k);
            }
            if exists|i: int| 0 <= i < s.len() && failure_key_of(s[i]) == k {
                let i = choose|i: int| 0 <= i < s.len() && failure_key_of(s[i]) == k;
                assert(i < s.len() - 1);
                assert(failure_key_of(s.drop_last()[i]) == k);
            }
        }
    }
}

proof fn lemma_fc_index(s: Seq<(FailureKey, u64)>, i: int)
    requires
        failure_keys_unique(s),
        0 <= i < s.len(),
    ensures
        failure_counts_map(s).contains_key(failure_key_of(s[i])),
        failure_counts_map(s)[failure_key_of(s[i])] == s[i].1,
    decreases s.len(),
{
    if i == s.len() - 1 {
    } else {
        assert(failure_keys_unique(s.drop_last())) by {
            assert(forall|a: int, b: int|
                0 <= a < s.drop_last().len() && 0 <= b < s.drop_last().len() && a != b
                    ==> failure_key_of(s.drop_last()[a]) != failure_key_of(s.drop_last()[b]));
        }
        assert(s.drop_last()[i] == s[i]);
        lemma_fc_index(s.drop_last(), i);
        assert(failure_key_of(s.last()) != failure_key_of(s[i]));
    }
}

proof fn lemma_fc_update(s: Seq<(FailureKey, u64)>, i: int, e: (FailureKey, u64))
    requires
        failure_keys_unique(s),
        0 <= i < s.len(),
        failure_key_of(e) == failure_key_of(s[i]),
    ensures
        failure_counts_map(s.update(i, e)) == failure_counts_map(s).insert(
            failure_key_of(e),
            e.1,
        ),
    decreases s.len(),
{
    let t = s.update(i, e);
    if i == s.len() - 1 {
        assert(t.drop_last() =~= s.drop_last());
        assert(t.last() == e);
        assert(failure_counts_map(t) =~= failure_counts_map(s).insert(failure_key_of(e), e.1));
    } else {
        assert(failure_keys_unique(s.drop_last())) by {
            assert(forall|a: int, b: int|
                0 <= a < s.drop_last().len() && 0 <= b < s.drop_last().len() && a != b
                    ==> failure_key_of(s.drop_last()[a]) != failure_key_of(s.drop_last()[b]));
        }
        assert(s.drop_last()[i] == s[i]);
        lemma_fc_update(s.drop_last(), i, e);
        assert(t.drop_last() =~= s.drop_last().update(i, e));
        assert(t.last() == s.last());
        assert(failure_key_of(s.last()) != failure_key_of(e));
        assert(failure_counts_map(t) =~= failure_counts_map(s).insert(failure_key_of(e), e.1));
    }
}

/// One registered target's instruments.
pub struct MetricsBundle {
    metadata: MonitorMetadata,
    hist: Histogram,
    success_count: u64,
    failure_count: u64,
    failure_types: Vec<(FailureKey, u64)>,
    up: bool,
    last_success_ts: u64,
}

impl View for MetricsBundle {
    type V = BundleModel;

    closed spec fn view(&self) -> BundleModel {
        BundleModel {
            meta: self.metadata@,
            hist: self.hist@,
            success_count: self.success_count,
            failure_count: self.failure_count,
            failure_types: failure_counts_map(self.failure_types@),
            up: self.up,
            last_success_ts: self.last_success_ts,
        }
    }
}

impl MetricsBundle {
    pub closed spec fn wf(&self) -> bool {
        &&& self.hist.wf()
        &&& failure_keys_unique(self.failure_types@)
    }

    fn fresh(metadata: MonitorMetadata) -> (b: MetricsBundle)
        ensures
            b.wf(),
            b@ == fresh_bundle(metadata@),
    {
        let b = MetricsBundle {
            metadata,
            hist: Histogram::new(),
            success_count: 0,
            failure_count: 0,
            failure_types: Vec::new(),
            up: false,
            last_success_ts: 0,
        };
        proof {
            assert(b@.failure_types =~= Map::<(Seq<char>, u16), u64>::empty());
        }
        b
    }

    fn apply_success(&mut self, latency_ms: u64, now_s: u64)
        requires
            old(self).wf(),
        ensures
            final(self).wf(),
            final(self)@ == success_bundle(old(self)@, latency_ms, now_s),
    {
        self.hist.record(latency_ms);
        self.success_count = self.success_count.saturating_add(1);
        self.up = true;
        self.last_success_ts = now_s;
    }

    fn apply_failure(&mut self, latency_ms: u64, error_type: &str, status_code: Option<u16>)
        requires
            old(self).wf(),
        ensures
            final(self).wf(),
            final(self)@ == failure_bundle(old(self)@, latency_ms, error_type@, status_code),
    {
        self.hist.record(latency_ms);
        self.failure_count = self.failure_count.saturating_add(1);
        self.up = false;

        let key = String::from_str(error_type);
        let code: u16 = match status_code {
            Some(c) => c,
            None => 0,
        };
        let ghost fkey = (error_type@, status_or_sentinel(status_code));
        let ghost s0 = self.failure_types@;

        let mut i: usize = 0;
        let n = self.failure_types.len();
        let mut found: Option<usize> = None;
        while i < n
            invariant
                n == self.failure_types@.len(),
                i <= n,
                key@ == error_type@,
                code == status_or_sentinel(status_code),
                fkey == (error_type@, status_or_sentinel(status_code)),
                match found {
                    Some(fi) => fi < i && failure_key_of(self.failure_types@[fi as int]) == fkey,
                    None => forall|j: int|
                        0 <= j < i ==> failure_key_of(self.failure_types@[j]) != fkey,
                },
            decreases n - i,
        {
            if found.is_none() {
                let e = &self.failure_types[i];
                if e.0.status_code == code && e.0.error_type == key {
                    found = Some(i);
                }
            }
            i = i + 1;
        }

        match found {
            Some(fi) => {
                let e = &mut self.failure_types[fi];
                e.1 = e.1.saturating_add(1);
                proof {
                    lemma_fc_index(s0, fi as int);
                    lemma_fc_update(s0, fi as int, self.failure_types@[fi as int]);
                    assert(failure_keys_unique(self.failure_types@)) by {
                        assert(forall|a: int, b: int|
                            0 <= a < self.failure_types@.len() && 0 <= b
                                < self.failure_types@.len() && a != b ==> failure_key_of(
                                self.failure_types@[a],
                            ) != failure_key_of(self.failure_types@[b]));
                    }
                }
            },
            None => {
                let entry = (FailureKey { error_type: key, status_code: code }, 1u64);
                self.failure_types.push(entry);
                proof {
                    lemma_fc_contains(s0, fkey);
                    assert(self.failure_types@.drop_last() =~= s0);
                    assert(failure_keys_unique(self.failure_types@)) by {
                        assert(forall|a: int, b: int|
                            0 <= a < self.failure_types@.len() && 0 <= b
                                < self.failure_types@.len() && a != b ==> failure_key_of(
                                self.failure_types@[a],
                            ) != failure_key_of(self.failure_types@[b]));
                    }
                }
            },
        }
    }
}

spec fn bundle_map(s: Seq<(MonitorId, MetricsBundle)>) -> Map<u128, BundleModel>
    decreases s.len(),
{
    if s.len() == 0 {
        Map::empty()
    } else {
        bundle_map(s.drop_last()).insert(s.last().0.0, s.last().1@)
    }
}

spec fn bundle_ids_unique(s: Seq<(MonitorId, MetricsBundle)>) -> bool {
    forall|i: int, j: int|
        0 <= i < s.len() && 0 <= j < s.len() && i != j ==> s[i].0.0 != s[j].0.0
}

proof fn lemma_bm_contains(s: Seq<(MonitorId, MetricsBundle)>, k: u128)
    ensures
        bundle_map(s).contains_key(k) <==> exists|i: int| 0 <= i < s.len() && s[i].0.0 == k,
    decreases s.len(),
{
    if s.len() > 0 {
        lemma_bm_contains(s.drop_last(), k);
        if s.last().0.0 == k {
            assert(s[s.len() - 1].0.0 == k);
        } else {
            if bundle_map(s).contains_key(k) {
                let i = choose|i: int| 0 <= i < s.drop_last().len() && s.drop_last()[i].0.0 == k;
                assert(s[i].0.0 == k);
            }
            if exists|i: int| 0 <= i < s.len() && s[i].0.0 == k {
                let i = choose|i: int| 0 <= i < s.len() && s[i].0.0 == k;
                assert(i < s.len() - 1);
                assert(s.drop_last()[i].0.0 == k);
            }
        }
    }
}

proof fn lemma_bm_index(s: Seq<(MonitorId, MetricsBundle)>, i: int)
    requires
        bundle_ids_unique(s),
        0 <= i < s.len(),
    ensures
        bundle_map(s).contains_key(s[i].0.0),
        bundle_map(s)[s[i].0.0] == s[i].1@,
    decreases s.len(),
{
    if i == s.len() - 1 {
    } else {
        assert(bundle_ids_unique(s.drop_last())) by {
            assert(forall|a: int, b: int|
                0 <= a < s.drop_last().len() && 0 <= b < s.drop_last().len() && a != b
                    ==> s.drop_last()[a].0.0 != s.drop_last()[b].0.0);
        }
        assert(s.drop_last()[i] == s[i]);
        lemma_bm_index(s.drop_last(), i);
        assert(s.last().0.0 != s[i].0.0);
    }
}

proof fn lemma_bm_update(s: Seq<(MonitorId, MetricsBundle)>, i: int, b: MetricsBundle)
    requires
        bundle_ids_unique(s),
        0 <= i < s.len(),
    ensures
        bundle_map(s.update(i, (s[i].0, b))) == bundle_map(s).insert(s[i].0.0, b@),
    decreases s.len(),
{
    let t = s.update(i, (s[i].0, b));
    if i == s.len() - 1 {
        assert(t.drop_last() =~= s.drop_last());
        assert(bundle_map(t) =~= bundle_map(s).insert(s[i].0.0, b@));
    } else {
        assert(bundle_ids_unique(s.drop_last())) by {
            assert(forall|a: int, b2: int|
                0 <= a < s.drop_last().len() && 0 <= b2 < s.drop_last().len() && a != b2
                    ==> s.drop_last()[a].0.0 != s.drop_last()[b2].0.0);
        }
        assert(s.drop_last()[i] == s[i]);
        lemma_bm_update(s.drop_last(), i, b);
        assert(t.drop_last() =~= s.drop_last().update(i, (s[i].0, b)));
        assert(t.last() == s.last());
        assert(s.last().0.0 != s[i].0.0);
        assert(bundle_map(t) =~= bundle_map(s).insert(s[i].0.0, b@));
    }
}

/// Relies on std::time::SystemTime::now and duration_since: the seconds of
/// the system clock since the Unix epoch. The result depends on the clock,
/// so nothing is promised of it (0 stands in for a clock before the epoch).
#[verifier::external_body]
fn unix_now_seconds() -> u64 {
    match std::time::SystemTime::now().duration_since(std::time::UNIX_EPOCH) {
        Ok(d) => d.as_secs(),
        Err(_) => 0,
    }
}

/// The central metrics store: one instrument bundle per registered target,
/// written by the scheduling loop and read by the exposition endpoint.
///
/// Its mathematical value is a map from target id to `BundleModel`;
/// `register_spec`, `record_success_spec` and `record_failure_spec` say how
/// each operation transforms it.
pub struct MetricsRegistry {
    bundles: Vec<(MonitorId, MetricsBundle)>,
}

impl View for MetricsRegistry {
    type V = Map<u128, BundleModel>;

    closed spec fn view(&self) -> Map<u128, BundleModel> {
        bundle_map(self.bundles@)
    }
}

impl MetricsRegistry {
    pub closed spec fn wf(&self) -> bool {
        &&& bundle_ids_unique(self.bundles@)
        &&& forall|i: int| 0 <= i < self.bundles@.len() ==> (#[trigger] self.bundles@[i].1).wf()
    }

    /// An empty store: no target registered.
    pub fn new() -> (r: MetricsRegistry)
        ensures
            r.wf(),
            r@ == Map::<u128, BundleModel>::empty(),
    {
        MetricsRegistry { bundles: Vec::new() }
    }

    /// Every registered bundle satisfies the histogram invariant.
    pub proof fn lemma_bundles_wf(&self)
        requires
            self.wf(),
        ensures
            forall|k: u128| #[trigger] self@.contains_key(k) ==> self@[k].wf(),
    {
        assert forall|k: u128| #[trigger] self@.contains_key(k) implies self@[k].wf() by {
            lemma_bm_contains(self.bundles@, k);
            let i = choose|i: int| 0 <= i < self.bundles@.len() && self.bundles@[i].0.0 == k;
            lemma_bm_index(self.bundles@, i);
        }
    }

    fn find_index(&self, id: MonitorId) -> (r: Option<usize>)
        ensures
            match r {
                Some(i) => i < self.bundles@.len() && self.bundles@[i as int].0 == id,
                None => forall|i: int| 0 <= i < self.bundles@.len() ==> self.bundles@[i].0 != id,
            },
    {
        let n = self.bundles.len();
        let mut i: usize = 0;
        while i < n
            invariant
                n == self.bundles@.len(),
                i <= n,
                forall|j: int| 0 <= j < i ==> self.bundles@[j].0 != id,
            decreases n - i,
        {
            if self.bundles[i].0 == id {
                return Some(i);
            }
            i = i + 1;
        }
        None
    }

    /// Register a target for metrics tracking: creates its bundle on the
    /// first call; later calls for the same target change nothing, so
    /// re-registration never resets recorded counts.
    pub fn register_monitor(&mut self, id: MonitorId, metadata: MonitorMetadata)
        requires
            old(self).wf(),
        ensures
            final(self).wf(),
            final(self)@ == register_spec(old(self)@, id.0, metadata@),
    {
        let ghost s0 = self.bundles@;
        match self.find_index(id) {
            Some(_) => {
                proof {
                    lemma_bm_contains(s0, id.0);
                }
            },
            None => {
                proof {
                    lemma_bm_contains(s0, id.0);
                }
                let b = MetricsBundle::fresh(metadata);
                self.bundles.push((id, b));
                proof {
                    assert(self.bundles@.drop_last() =~= s0);
                    assert(bundle_ids_unique(self.bundles@)) by {
                        assert(forall|a: int, c: int|
                            0 <= a < self.bundles@.len() && 0 <= c < self.bundles@.len() && a != c
                                ==> self.bundles@[a].0.0 != self.bundles@[c].0.0);
                    }
                }
            },
        }
    }

    /// Record a successful probe of `monitor_id` with the given latency, at
    /// an explicit wall-clock time in Unix seconds. A no-op when the target
    /// was never registered.
    pub fn record_success_at(&mut self, monitor_id: MonitorId, response_time_ms: u64, now_s: u64)
        requires
            old(self).wf(),
        ensures
            final(self).wf(),
            final(self)@ == record_success_spec(old(self)@, monitor_id.0, response_time_ms, now_s),
    {
        let ghost s0 = self.bundles@;
        match self.find_index(monitor_id) {
            None => {
                proof {
                    lemma_bm_contains(s0, monitor_id.0);
                }
            },
            Some(i) => {
                proof {
                    lemma_bm_contains(s0, monitor_id.0);
                    lemma_bm_index(s0, i as int);
                }
                let entry = &mut self.bundles[i];
                entry.1.apply_success(response_time_ms, now_s);
                proof {
                    lemma_bm_update(s0, i as int, self.bundles@[i as int].1);
                    assert(bundle_ids_unique(self.bundles@)) by {
                        assert(forall|a: int, c: int|
                            0 <= a < self.bundles@.len() && 0 <= c < self.bundles@.len() && a != c
                                ==> self.bundles@[a].0.0 != self.bundles@[c].0.0);
                    }
                }
            },
        }
    }

    /// Record a successful probe at the current wall-clock time: the
    /// histogram takes the latency, the success counter grows by one, the
    /// up-gauge goes to 1, and the last-success timestamp is set to now.
    pub fn record_success(&mut self, monitor_id: MonitorId, response_time_ms: u64)
        requires
            old(self).wf(),
        ensures
            final(self).wf(),
            exists|t: u64|
                final(self)@ == record_success_spec(
                    old(self)@,
                    monitor_id.0,
                    response_time_ms,
                    t,
                ),
            !old(self)@.contains_key(monitor_id.0) ==> final(self)@ == old(self)@,
    {
        let now_s = unix_now_seconds();
        self.record_success_at(monitor_id, response_time_ms, now_s);
    }

    /// Record a failed probe: the histogram still takes the latency (so
    /// timeout durations stay observable), the failure counter and the
    /// failure-type counter keyed by `(error_type, status code or 0)` grow
    /// by one, and the up-gauge goes to 0. A no-op when the target was
    /// never registered.
    pub fn record_failure(
        &mut self,
        monitor_id: MonitorId,
        response_time_ms: u64,
        error_type: &str,
        status_code: Option<u16>,
    )
        requires
            old(self).wf(),
        ensures
            final(self).wf(),
            final(self)@ == record_failure_spec(
                old(self)@,
                monitor_id.0,
                response_time_ms,
                error_type@,
                status_code,
            ),
    {
        let ghost s0 = self.bundles@;
        match self.find_index(monitor_id) {
            None => {
                proof {
                    lemma_bm_contains(s0, monitor_id.0);
                }
            },
            Some(i) => {
                proof {
                    lemma_bm_contains(s0, monitor_id.0);
                    lemma_bm_index(s0, i as int);
                }
                let entry = &mut self.bundles[i];
                entry.1.apply_failure(response_time_ms, error_type, status_code);
                proof {
                    lemma_bm_update(s0, i as int, self.bundles@[i as int].1);
                    assert(bundle_ids_unique(self.bundles@)) by {
                        assert(forall|a: int, c: int|
                            0 <= a < self.bundles@.len() && 0 <= c < self.bundles@.len() && a != c
                                ==> self.bundles@[a].0.0 != self.bundles@[c].0.0);
                    }
                }
            },
        }
    }
}

impl MetricsBundle {
    fn failure_count_for(&self, error_type: &str, code: u16) -> (r: u64)
        requires
            self.wf(),
        ensures
            r == if self@.failure_types.contains_key((error_type@, code)) {
                self@.failure_types[(error_type@, code)]
            } else {
                0u64
            },
    {
        let key = String::from_str(error_type);
        let n = self.failure_types.len();
        let mut i: usize = 0;
        while i < n
            invariant
                self.wf(),
                n == self.failure_types@.len(),
                i <= n,
                key@ == error_type@,
                forall|j: int|
                    0 <= j < i ==> failure_key_of(self.failure_types@[j]) != (error_type@, code),
            decreases n - i,
        {
            let e = &self.failure_types[i];
            if e.0.status_code == code && e.0.error_type == key {
                proof {
                    lemma_fc_index(self.failure_types@, i as int);
                }
                return e.1;
            }
            i = i + 1;
        }
        proof {
            lemma_fc_contains(self.failure_types@, (error_type@, code));
        }
        0
    }
}

impl MetricsRegistry {
    /// Whether a bundle exists for this target.
    pub fn is_registered(&self, id: MonitorId) -> (r: bool)
        requires
            self.wf(),
        ensures
            r == self@.contains_key(id.0),
    {
        proof {
            lemma_bm_contains(self.bundles@, id.0);
        }
        self.find_index(id).is_some()
    }

    /// The success counter of a target, if it is registered.
    pub fn success_count(&self, id: MonitorId) -> (r: Option<u64>)
        requires
            self.wf(),
        ensures
            r == if self@.contains_key(id.0) {
                Some(self@[id.0].success_count)
            } else {
                None::<u64>
            },
    {
        proof {
            lemma_bm_contains(self.bundles@, id.0);
        }
        match self.find_index(id) {
            Some(i) => {
                proof {
                    lemma_bm_index(self.bundles@, i as int);
                }
                Some(self.bundles[i].1.success_count)
            },
            None => None,
        }
    }

    /// The failure counter of a target, if it is registered.
    pub fn failure_count(&self, id: MonitorId) -> (r: Option<u64>)
        requires
            self.wf(),
        ensures
            r == if self@.contains_key(id.0) {
                Some(self@[id.0].failure_count)
            } else {
                None::<u64>
            },
    {
        proof {
            lemma_bm_contains(self.bundles@, id.0);
        }
        match self.find_index(id) {
            Some(i) => {
                proof {
                    lemma_bm_index(self.bundles@, i as int);
                }
                Some(self.bundles[i].1.failure_count)
            },
            None => None,
        }
    }

    /// The up/down gauge of a target: `true` means the most recently
    /// completed probe succeeded.
    pub fn up_gauge(&self, id: MonitorId) -> (r: Option<bool>)
        requires
            self.wf(),
        ensures
            r == if self@.contains_key(id.0) {
                Some(self@[id.0].up)
            } else {
                None::<bool>
            },
    {
        proof {
            lemma_bm_contains(self.bundles@, id.0);
        }
        match self.find_index(id) {
            Some(i) => {
                proof {
                    lemma_bm_index(self.bundles@, i as int);
                }
                Some(self.bundles[i].1.up)
            },
            None => None,
        }
    }

    /// The Unix seconds of the last successful probe (0 before the first),
    /// if the target is registered.
    pub fn last_success_timestamp(&self, id: MonitorId) -> (r: Option<u64>)
        requires
            self.wf(),
        ensures
            r == if self@.contains_key(id.0) {
                Some(self@[id.0].last_success_ts)
            } else {
                None::<u64>
            },
    {
        proof {
            lemma_bm_contains(self.bundles@, id.0);
        }
        match self.find_index(id) {
            Some(i) => {
                proof {
                    lemma_bm_index(self.bundles@, i as int);
                }
                Some(self.bundles[i].1.last_success_ts)
            },
            None => None,
        }
    }

    /// The total observation count of a target's latency histogram.
    pub fn histogram_count(&self, id: MonitorId) -> (r: Option<u64>)
        requires
            self.wf(),
        ensures
            r == if self@.contains_key(id.0) {
                Some(self@[id.0].hist.count)
            } else {
                None::<u64>
            },
    {
        proof {
            lemma_bm_contains(self.bundles@, id.0);
        }
        match self.find_index(id) {
            Some(i) => {
                proof {
                    lemma_bm_index(self.bundles@, i as int);
                }
                Some(self.bundles[i].1.hist.count())
            },
            None => None,
        }
    }

    /// The sum of all recorded latencies of a target, in milliseconds.
    pub fn histogram_sum_ms(&self, id: MonitorId) -> (r: Option<u64>)
        requires
            self.wf(),
        ensures
            r == if self@.contains_key(id.0) {
                Some(self@[id.0].hist.sum_ms)
            } else {
                None::<u64>
            },
    {
        proof {
            lemma_bm_contains(self.bundles@, id.0);
        }
        match self.find_index(id) {
            Some(i) => {
                proof {
                    lemma_bm_index(self.bundles@, i as int);
                }
                Some(self.bundles[i].1.hist.sum_ms())
            },
            None => None,
        }
    }

    /// The cumulative count of bucket `bucket` of a target's histogram.
    pub fn histogram_bucket_count(&self, id: MonitorId, bucket: usize) -> (r: Option<u64>)
        requires
            self.wf(),
            bucket < crate::histogram::NUM_BUCKETS,
        ensures
            r == if self@.contains_key(id.0) {
                Some(self@[id.0].hist.buckets[bucket as int])
            } else {
                None::<u64>
            },
    {
        proof {
            lemma_bm_contains(self.bundles@, id.0);
        }
        match self.find_index(id) {
            Some(i) => {
                proof {
                    lemma_bm_index(self.bundles@, i as int);
                }
                Some(self.bundles[i].1.hist.bucket_count(bucket))
            },
            None => None,
        }
    }

    /// The failure-type counter of a target for a classification and a
    /// status code (`None` stands for failures without one): 0 when no such
    /// failure was recorded yet, `None` when the target is unregistered.
    pub fn failure_type_count(
        &self,
        id: MonitorId,
        error_type: &str,
        status_code: Option<u16>,
    ) -> (r: Option<u64>)
        requires
            self.wf(),
        ensures
            r == if self@.contains_key(id.0) {
                let key = (error_type@, status_or_sentinel(status_code));
                if self@[id.0].failure_types.contains_key(key) {
                    Some(self@[id.0].failure_types[key])
                } else {
                    Some(0u64)
                }
            } else {
                None::<u64>
            },
    {
        proof {
            lemma_bm_contains(self.bundles@, id.0);
        }
        let code: u16 = match status_code {
            Some(c) => c,
            None => 0,
        };
        match self.find_index(id) {
            Some(i) => {
                proof {
                    lemma_bm_index(self.bundles@, i as int);
                }
                Some(self.bundles[i].1.failure_count_for(error_type, code))
            },
            None => None,
        }
    }
}

/// Law: registering the same target twice changes nothing the second time,
/// whatever metadata the second call carries; recorded counts survive
/// re-registration.
pub proof fn lemma_register_idempotent(
    m: Map<u128, BundleModel>,
    id: u128,
    meta1: MetadataModel,
    meta2: MetadataModel,
)
    ensures
        register_spec(register_spec(m, id, meta1), id, meta2) == register_spec(m, id, meta1),
{
}

/// Law: recording against a target id that was never registered leaves the
/// store exactly as it was — no new series, no observable change.
pub proof fn lemma_record_unregistered_is_no_op(
    m: Map<u128, BundleModel>,
    id: u128,
    latency_ms: u64,
    now_s: u64,
    error_type: Seq<char>,
    status_code: Option<u16>,
)
    requires
        !m.contains_key(id),
    ensures
        record_success_spec(m, id, latency_ms, now_s) == m,
        record_failure_spec(m, id, latency_ms, error_type, status_code) == m,
{
}

/// Law: a record operation touches only its own target: every other
/// target's bundle — its counters, its gauge, and in particular its
/// failure-type map — is left exactly as it was. With `fresh_bundle`, whose
/// failure-type map is empty, a target that is never dispatched never
/// acquires a failure-type entry.
pub proof fn lemma_record_touches_only_its_target(
    m: Map<u128, BundleModel>,
    id: u128,
    other: u128,
    latency_ms: u64,
    now_s: u64,
    error_type: Seq<char>,
    status_code: Option<u16>,
)
    requires
        other != id,
    ensures
        record_success_spec(m, id, latency_ms, now_s).contains_key(other) == m.contains_key(
            other,
        ),
        m.contains_key(other) ==> record_success_spec(m, id, latency_ms, now_s)[other] == m[other],
        record_failure_spec(m, id, latency_ms, error_type, status_code).contains_key(other)
            == m.contains_key(other),
        m.contains_key(other) ==> record_failure_spec(
            m,
            id,
            latency_ms,
            error_type,
            status_code,
        )[other] == m[other],
{
}

/// Law: the up-gauge reflects the most recently completed record operation
/// for its target: 1 right after a recorded success, 0 right after a
/// recorded failure, whatever the store held before.
pub proof fn lemma_up_gauge_tracks_last_outcome(
    m: Map<u128, BundleModel>,
    id: u128,
    latency_ms: u64,
    now_s: u64,
    error_type: Seq<char>,
    status_code: Option<u16>,
)
    requires
        m.contains_key(id),
    ensures
        record_success_spec(m, id, latency_ms, now_s).contains_key(id),
        record_success_spec(m, id, latency_ms, now_s)[id].up == true,
        record_success_spec(m, id, latency_ms, now_s)[id].last_success_ts == now_s,
        record_failure_spec(m, id, latency_ms, error_type, status_code).contains_key(id),
        record_failure_spec(m, id, latency_ms, error_type, status_code)[id].up == false,
{
}

} // verus!
