//! Per-interface rate tracking: a fixed-length rolling window of per-tick
//! rate samples derived from cumulative byte counters, with counter-reset
//! handling and a running peak for chart axis scaling.

use vstd::prelude::*;

verus! {

/// Number of rate samples kept per direction (the rolling window size).
pub const HISTORY_SIZE: usize = 60;

/// The per-tick rate derived from two consecutive cumulative counter
/// readings: the plain difference while the counter grows, and the new
/// value itself after a counter reset (an observed decrease).
pub open spec fn rate_delta(prev: u64, cur: u64) -> u64 {
    if cur >= prev {
        (cur - prev) as u64
    } else {
        cur
    }
}

/// Executable form of [`rate_delta`].
pub fn compute_rate_delta(prev: u64, cur: u64) -> (delta: u64)
    ensures
        delta == rate_delta(prev, cur),
{
    if cur >= prev {
        cur - prev
    } else {
        cur
    }
}

/// Maximum of a sample window, floored at one so axis scaling never
/// degenerates when all traffic is idle.
pub open spec fn peak_of(s: Seq<u64>) -> u64
    decreases s.len(),
{
    if s.len() == 0 {
        1
    } else {
        let m = peak_of(s.drop_last());
        if s.last() > m {
            s.last()
        } else {
            m
        }
    }
}

/// The window after one insertion: the oldest sample evicted, `sample`
/// appended as the newest.
pub open spec fn shifted(h: Seq<u64>, sample: u64) -> Seq<u64> {
    h.drop_first().push(sample)
}

/// The window after a run of insertions, oldest first.
pub open spec fn shifted_many(h: Seq<u64>, samples: Seq<u64>) -> Seq<u64>
    decreases samples.len(),
{
    if samples.len() == 0 {
        h
    } else {
        shifted_many(shifted(h, samples[0]), samples.drop_first())
    }
}

proof fn lemma_shifted_many_append(h: Seq<u64>, samples: Seq<u64>)
    requires
        h.len() >= 1,
    ensures
        shifted_many(h, samples) == (h + samples).skip(samples.len() as int),
    decreases samples.len(),
{
    if samples.len() == 0 {
        assert((h + samples).skip(0) =~= h);
    } else {
        assert(shifted(h, samples[0]) =~= (h + seq![samples[0]]).skip(1));
        lemma_shifted_many_append((h + seq![samples[0]]).skip(1), samples.drop_first());
        assert(((h + seq![samples[0]]).skip(1) + samples.drop_first()).skip(
            samples.len() - 1,
        ) =~= (h + samples).skip(samples.len() as int));
    }
}

/// The window never grows: a run of insertions keeps its length, and
/// once at least a full window of samples has been inserted, every
/// sample the window held before the run has been evicted; it then holds
/// exactly the newest `HISTORY_SIZE` insertions, in order.
pub proof fn lemma_window_forgets(h: Seq<u64>, samples: Seq<u64>)
    requires
        h.len() == HISTORY_SIZE,
        samples.len() >= HISTORY_SIZE,
    ensures
        shifted_many(h, samples).len() == HISTORY_SIZE,
        shifted_many(h, samples) == samples.skip(samples.len() - HISTORY_SIZE),
{
    lemma_shifted_many_append(h, samples);
    assert((h + samples).skip(samples.len() as int) =~= samples.skip(
        samples.len() - HISTORY_SIZE,
    ));
}

/// The peak is at least one whatever the window holds (even all zeros),
/// bounds every sample, and is either the floor or one of the samples.
pub proof fn lemma_peak_bounds(s: Seq<u64>)
    ensures
        peak_of(s) >= 1,
        forall|i: int| 0 <= i < s.len() ==> s[i] <= peak_of(s),
        peak_of(s) == 1 || exists|i: int| 0 <= i < s.len() && s[i] == peak_of(s),
    decreases s.len(),
{
    if s.len() > 0 {
        lemma_peak_bounds(s.drop_last());
        assert(forall|i: int| 0 <= i < s.len() - 1 ==> s.drop_last()[i] == s[i]);
        if peak_of(s) != 1 && !(s.last() > peak_of(s.drop_last()))
            && peak_of(s.drop_last()) != 1 {
            let i = choose|i: int|
                0 <= i < s.len() - 1 && s.drop_last()[i] == peak_of(s.drop_last());
            assert(s[i] == peak_of(s));
        }
    }
}

fn window_peak(h: &Vec<u64>) -> (m: u64)
    ensures
        m == peak_of(h@),
{
    let mut m: u64 = 1;
    let mut i: usize = 0;
    while i < h.len()
        invariant
            i <= h@.len(),
            m == peak_of(h@.take(i as int)),
        decreases h@.len() - i,
    {
        let x = h[i];
        proof {
            assert(h@.take(i + 1).drop_last() =~= h@.take(i as int));
            assert(h@.take(i + 1).last() == h@[i as int]);
        }
        if x > m {
            m = x;
        }
        i = i + 1;
    }
    proof {
        assert(h@.take(h@.len() as int) =~= h@);
    }
    m
}

fn zero_window() -> (h: Vec<u64>)
    ensures
        h@.len() == HISTORY_SIZE,
        forall|i: int| 0 <= i < h@.len() ==> h@[i] == 0,
{
    let mut h: Vec<u64> = Vec::new();
    let mut i: usize = 0;
    while i < HISTORY_SIZE
        invariant
            i <= HISTORY_SIZE,
            h@.len() == i,
            forall|j: int| 0 <= j < h@.len() ==> h@[j] == 0,
        decreases HISTORY_SIZE - i,
    {
        h.push(0);
        i = i + 1;
    }
    h
}

/// Rolling rate state for one interface: one window per direction, the
/// running peak of each, the cumulative counters last observed, and
/// whether a first observation has been recorded (warm) or not (cold).
#[derive(Debug, Clone)]
pub struct NetworkUsage {
    pub rx_history: Vec<u64>,
    pub tx_history: Vec<u64>,
    pub max_rx: u64,
    pub max_tx: u64,
    pub last_rx: u64,
    pub last_tx: u64,
    pub warm: bool,
}

impl NetworkUsage {
    /// Both windows hold exactly [`HISTORY_SIZE`] samples and each peak is
    /// the floored maximum of its window.
    pub open spec fn wf(self) -> bool {
        &&& self.rx_history@.len() == HISTORY_SIZE
        &&& self.tx_history@.len() == HISTORY_SIZE
        &&& self.max_rx == peak_of(self.rx_history@)
        &&& self.max_tx == peak_of(self.tx_history@)
    }

    /// The sample this tracker will emit for the next observation of a
    /// cumulative counter: zero while cold (the observation only sets the
    /// baseline), the reset-aware difference once warm.
    pub open spec fn next_sample(self, prev: u64, cur: u64) -> u64 {
        if self.warm {
            rate_delta(prev, cur)
        } else {
            0
        }
    }

    /// A cold tracker with both windows pre-filled with zero samples.
    pub fn new() -> (r: NetworkUsage)
        ensures
            r.wf(),
            !r.warm,
            r.last_rx == 0,
            r.last_tx == 0,
            r.max_rx == 1,
            r.max_tx == 1,
            r.rx_history@.len() == HISTORY_SIZE,
            r.tx_history@.len() == HISTORY_SIZE,
            forall|i: int| 0 <= i < r.rx_history@.len() ==> r.rx_history@[i] == 0,
            forall|i: int| 0 <= i < r.tx_history@.len() ==> r.tx_history@[i] == 0,
    {
        let rx_history = zero_window();
        let tx_history = zero_window();
        proof {
            lemma_peak_bounds(rx_history@);
            lemma_peak_bounds(tx_history@);
        }
        NetworkUsage {
            rx_history,
            tx_history,
            max_rx: 1,
            max_tx: 1,
            last_rx: 0,
            last_tx: 0,
            warm: false,
        }
    }

    /// Record one observation of the cumulative counters. The oldest
    /// sample of each window is evicted and the new per-tick rate is
    /// appended: zero on the first observation (which sets the baseline),
    /// the reset-aware difference against the previous observation after
    /// that. Both peaks are recomputed from the updated windows.
    pub fn update(&mut self, rx_bytes: u64, tx_bytes: u64)
        requires
            old(self).wf(),
        ensures
            final(self).wf(),
            final(self).warm,
            final(self).last_rx == rx_bytes,
            final(self).last_tx == tx_bytes,
            final(self).rx_history@ == shifted(
                old(self).rx_history@,
                old(self).next_sample(old(self).last_rx, rx_bytes),
            ),
            final(self).tx_history@ == shifted(
                old(self).tx_history@,
                old(self).next_sample(old(self).last_tx, tx_bytes),
            ),
    {
        let rx_diff = if self.warm {
            compute_rate_delta(self.last_rx, rx_bytes)
        } else {
            0
        };
        let tx_diff = if self.warm {
            compute_rate_delta(self.last_tx, tx_bytes)
        } else {
            0
        };
        self.last_rx = rx_bytes;
        self.last_tx = tx_bytes;
        self.warm = true;
        self.rx_history.remove(0);
        self.rx_history.push(rx_diff);
        self.tx_history.remove(0);
        self.tx_history.push(tx_diff);
        proof {
            assert(self.rx_history@ =~= shifted(
                old(self).rx_history@,
                old(self).next_sample(old(self).last_rx, rx_bytes),
            ));
            assert(self.tx_history@ =~= shifted(
                old(self).tx_history@,
                old(self).next_sample(old(self).last_tx, tx_bytes),
            ));
        }
        self.max_rx = window_peak(&self.rx_history);
        self.max_tx = window_peak(&self.tx_history);
    }
}

} // verus!
