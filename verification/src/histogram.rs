//! A fixed-bucket latency histogram with cumulative bucket counts, the
//! instrument behind `http_monitor_response_time_seconds`.
//!
//! Latencies are recorded in milliseconds. The bucket upper bounds are fixed
//! at process start (50 ms up to 30 s) plus one unbounded overflow bucket;
//! counts are cumulative in the Prometheus style: bucket `i` counts every
//! observation at or below its bound, and the last bucket counts them all.
//!
//! Counters saturate at `u64::MAX` instead of wrapping, so the histogram
//! invariants hold unconditionally for the life of the process.

use vstd::prelude::*;

verus! {

/// Number of buckets: ten finite bounds plus the unbounded overflow bucket.
pub const NUM_BUCKETS: usize = 11;

/// Upper bound, in milliseconds, of each finite bucket.
pub open spec fn spec_bucket_bound_ms(i: int) -> u64 {
    if i == 0 {
        50
    } else if i == 1 {
        100
    } else if i == 2 {
        200
    } else if i == 3 {
        500
    } else if i == 4 {
        1000
    } else if i == 5 {
        2000
    } else if i == 6 {
        5000
    } else if i == 7 {
        10000
    } else if i == 8 {
        20000
    } else {
        30000
    }
}

/// Addition that saturates at `u64::MAX` instead of wrapping.
pub open spec fn sat_add_u64(a: u64, b: u64) -> u64 {
    if a + b > u64::MAX {
        u64::MAX
    } else {
        (a + b) as u64
    }
}

/// Whether an observation of `latency_ms` falls into (cumulative) bucket `i`:
/// the overflow bucket takes every observation, a finite bucket those at or
/// below its bound.
pub open spec fn observation_in_bucket(latency_ms: u64, i: int) -> bool {
    i == NUM_BUCKETS - 1 || latency_ms <= spec_bucket_bound_ms(i)
}

/// The mathematical value of a histogram: cumulative bucket counts, the sum
/// of all observations in milliseconds, and the observation count.
pub ghost struct HistogramModel {
    pub buckets: Seq<u64>,
    pub sum_ms: u64,
    pub count: u64,
}

impl HistogramModel {
    /// The histogram invariant: eleven cumulative buckets, counts
    /// non-decreasing from the narrowest bucket out, and the overflow bucket
    /// equal to the total observation count.
    pub open spec fn wf(self) -> bool {
        &&& self.buckets.len() == NUM_BUCKETS
        &&& forall|i: int, j: int|
            0 <= i <= j < NUM_BUCKETS ==> self.buckets[i] <= self.buckets[j]
        &&& self.buckets[NUM_BUCKETS - 1] == self.count
    }

    /// A histogram with no observations.
    pub open spec fn empty() -> HistogramModel {
        HistogramModel { buckets: Seq::new(NUM_BUCKETS as nat, |i: int| 0u64), sum_ms: 0, count: 0 }
    }

    /// The histogram after one observation of `latency_ms`: every bucket the
    /// observation falls in is incremented, the sum grows by the latency,
    /// the count by one; all saturating.
    pub open spec fn record(self, latency_ms: u64) -> HistogramModel {
        HistogramModel {
            buckets: Seq::new(
                NUM_BUCKETS as nat,
                |i: int|
                    if observation_in_bucket(latency_ms, i) {
                        sat_add_u64(self.buckets[i], 1)
                    } else {
                        self.buckets[i]
                    },
            ),
            sum_ms: sat_add_u64(self.sum_ms, latency_ms),
            count: sat_add_u64(self.count, 1),
        }
    }
}

/// Law: recording an observation preserves the histogram invariant, so the
/// cumulative shape and the overflow-equals-count property hold after any
/// sequence of recordings.
pub proof fn lemma_record_preserves_wf(h: HistogramModel, latency_ms: u64)
    requires
        h.wf(),
    ensures
        h.record(latency_ms).wf(),
{
    let r = h.record(latency_ms);
    assert forall|i: int, j: int| 0 <= i <= j < NUM_BUCKETS implies r.buckets[i]
        <= r.buckets[j] by {
        if observation_in_bucket(latency_ms, i) {
            assert(observation_in_bucket(latency_ms, j));
        }
    }
}

/// Law: recording never decreases any bucket count, the sum, or the count;
/// bucket counts are monotonically non-decreasing over the life of the
/// instrument.
pub proof fn lemma_record_buckets_nondecreasing(h: HistogramModel, latency_ms: u64)
    requires
        h.wf(),
    ensures
        forall|i: int|
            0 <= i < NUM_BUCKETS ==> h.record(latency_ms).buckets[i] >= h.buckets[i],
        h.record(latency_ms).sum_ms >= h.sum_ms,
        h.record(latency_ms).count >= h.count,
{
}

/// Law: under the invariant the overflow bucket equals the total observation
/// count, and the cumulative counts never step down from one bucket to the
/// next.
pub proof fn lemma_overflow_bucket_counts_all(h: HistogramModel)
    requires
        h.wf(),
    ensures
        h.buckets[NUM_BUCKETS - 1] == h.count,
        forall|i: int, j: int| 0 <= i <= j < NUM_BUCKETS ==> h.buckets[i] <= h.buckets[j],
{
}

/// The response-time histogram of one monitored target.
pub struct Histogram {
    buckets: Vec<u64>,
    sum_ms: u64,
    count: u64,
}

impl View for Histogram {
    type V = HistogramModel;

    closed spec fn view(&self) -> HistogramModel {
        HistogramModel { buckets: self.buckets@, sum_ms: self.sum_ms, count: self.count }
    }
}

impl Histogram {
    pub open spec fn wf(&self) -> bool {
        self@.wf()
    }

    /// Upper bound in milliseconds of finite bucket `i`.
    pub fn bucket_bound_ms(i: usize) -> (b: u64)
        requires
            i < NUM_BUCKETS - 1,
        ensures
            b == spec_bucket_bound_ms(i as int),
    {
        if i == 0 {
            50
        } else if i == 1 {
            100
        } else if i == 2 {
            200
        } else if i == 3 {
            500
        } else if i == 4 {
            1000
        } else if i == 5 {
            2000
        } else if i == 6 {
            5000
        } else if i == 7 {
            10000
        } else if i == 8 {
            20000
        } else {
            30000
        }
    }

    /// A histogram with no observations yet.
    pub fn new() -> (h: Histogram)
        ensures
            h@ == HistogramModel::empty(),
            h.wf(),
    {
        let mut buckets: Vec<u64> = Vec::new();
        let mut i: usize = 0;
        while i < NUM_BUCKETS
            invariant
                i <= NUM_BUCKETS,
                buckets@.len() == i,
                forall|j: int| 0 <= j < i ==> buckets@[j] == 0u64,
            decreases NUM_BUCKETS - i,
        {
            buckets.push(0);
            i = i + 1;
        }
        let h = Histogram { buckets, sum_ms: 0, count: 0 };
        proof {
            assert(h@.buckets =~= HistogramModel::empty().buckets);
        }
        h
    }

    /// Record one observation of `latency_ms`.
    pub fn record(&mut self, latency_ms: u64)
        requires
            old(self).wf(),
        ensures
            final(self).wf(),
            final(self)@ == old(self)@.record(latency_ms),
    {
        let ghost h0 = self@;
        let mut i: usize = 0;
        while i < NUM_BUCKETS - 1
            invariant
                i <= NUM_BUCKETS - 1,
                self.buckets@.len() == NUM_BUCKETS,
                self.sum_ms == h0.sum_ms,
                self.count == h0.count,
                forall|j: int|
                    0 <= j < i ==> self.buckets@[j] == (if observation_in_bucket(latency_ms, j) {
                        sat_add_u64(h0.buckets[j], 1)
                    } else {
                        h0.buckets[j]
                    }),
                forall|j: int| i <= j < NUM_BUCKETS ==> self.buckets@[j] == h0.buckets[j],
            decreases NUM_BUCKETS - 1 - i,
        {
            if latency_ms <= Self::bucket_bound_ms(i) {
                let c = self.buckets[i];
                self.buckets[i] = c.saturating_add(1);
            }
            i = i + 1;
        }
        let inf = self.buckets[NUM_BUCKETS - 1];
        self.buckets[NUM_BUCKETS - 1] = inf.saturating_add(1);
        self.sum_ms = self.sum_ms.saturating_add(latency_ms);
        self.count = self.count.saturating_add(1);
        proof {
            assert(self@.buckets =~= h0.record(latency_ms).buckets);
            lemma_record_preserves_wf(h0, latency_ms);
        }
    }

    /// Cumulative count of bucket `i`.
    pub fn bucket_count(&self, i: usize) -> (c: u64)
        requires
            self.wf(),
            i < NUM_BUCKETS,
        ensures
            c == self@.buckets[i as int],
    {
        self.buckets[i]
    }

    /// Sum of all recorded latencies, in milliseconds.
    pub fn sum_ms(&self) -> (s: u64)
        ensures
            s == self@.sum_ms,
    {
        self.sum_ms
    }

    /// Total number of observations.
    pub fn count(&self) -> (c: u64)
        ensures
            c == self@.count,
    {
        self.count
    }
}

} // verus!
