//! A statistics aggregator over time.
//!
//! The timeline is cut into fixed-size steps, and each step keeps aggregated
//! counters. The retained steps form a window of consecutive step indices.
//! When a time past the window is accessed, the window is extended up to that
//! step, and if it then holds more than `max_steps` steps, the oldest ones are
//! evicted until only the configured tail remains. Evicted steps can be kept,
//! in chronological order, for the caller to write out.
//!
//! The unit of the time values is arbitrary but must be the same everywhere.

use vstd::prelude::*;

verus! {

/// Aggregated counters of one step.
#[derive(Debug, Clone, Copy, PartialEq, Eq, Structural)]
pub struct Stats {
    /// Number of packets sent in this step.
    pub tx_packets: u64,
    /// Number of packets received in this step.
    pub rx_packets: u64,
    /// Number of packets sent in this step that were received (at any time).
    pub rx_packets_sent_here: u64,
    /// Total latency of the packets sent in this step that were received.
    pub total_latency_sent_here: u64,
}

/// A step with every counter at zero.
pub open spec fn zero_stats() -> Stats {
    Stats { tx_packets: 0, rx_packets: 0, rx_packets_sent_here: 0, total_latency_sent_here: 0 }
}

/// `a + b` modulo 2^64, as an atomic fetch-add computes it.
pub open spec fn wrap_add(a: u64, b: u64) -> u64 {
    if a + b <= u64::MAX {
        (a + b) as u64
    } else {
        (a + b - 0x1_0000_0000_0000_0000) as u64
    }
}

/// The counters of `s` with those of `d` added to them.
pub open spec fn add_stats(s: Stats, d: Stats) -> Stats {
    Stats {
        tx_packets: wrap_add(s.tx_packets, d.tx_packets),
        rx_packets: wrap_add(s.rx_packets, d.rx_packets),
        rx_packets_sent_here: wrap_add(s.rx_packets_sent_here, d.rx_packets_sent_here),
        total_latency_sent_here: wrap_add(s.total_latency_sent_here, d.total_latency_sent_here),
    }
}

/// No counter of `s` overflows when `d` is added to it.
pub open spec fn adds_without_overflow(s: Stats, d: Stats) -> bool {
    &&& s.tx_packets + d.tx_packets <= u64::MAX
    &&& s.rx_packets + d.rx_packets <= u64::MAX
    &&& s.rx_packets_sent_here + d.rx_packets_sent_here <= u64::MAX
    &&& s.total_latency_sent_here + d.total_latency_sent_here <= u64::MAX
}

/// Every counter of `a` is at most the same counter of `b`.
pub open spec fn stats_le(a: Stats, b: Stats) -> bool {
    &&& a.tx_packets <= b.tx_packets
    &&& a.rx_packets <= b.rx_packets
    &&& a.rx_packets_sent_here <= b.rx_packets_sent_here
    &&& a.total_latency_sent_here <= b.total_latency_sent_here
}

/// A step update that adds one received packet.
pub open spec fn one_rx() -> Stats {
    Stats { tx_packets: 0, rx_packets: 1, rx_packets_sent_here: 0, total_latency_sent_here: 0 }
}

/// A step update that adds `n` sent packets.
pub open spec fn n_tx(n: u64) -> Stats {
    Stats { tx_packets: n, rx_packets: 0, rx_packets_sent_here: 0, total_latency_sent_here: 0 }
}

/// A step update that adds one sent packet.
pub open spec fn one_tx() -> Stats {
    n_tx(1)
}

/// A step update that adds one packet sent in the step and received after
/// `latency` time units.
pub open spec fn one_sent_here(latency: u64) -> Stats {
    Stats { tx_packets: 0, rx_packets: 0, rx_packets_sent_here: 1, total_latency_sent_here: latency }
}

/// `n` steps with every counter at zero.
pub open spec fn zero_steps(n: nat) -> Seq<Stats> {
    Seq::new(n, |i: int| zero_stats())
}

/// The step index of `time`.
pub open spec fn step_of(time: u64, step_size: u64) -> int {
    time as int / step_size as int
}

/// Number of steps to keep after an eviction: `⌈evict_threshold / step_size⌉`
/// steps to cover `evict_threshold`, plus the current step (`usize::MAX` when
/// that does not fit a `usize`).
pub open spec fn steps_to_keep(step_size: u64, evict_threshold: u64) -> int {
    let covering = evict_threshold as int / step_size as int + (if evict_threshold as int
        % step_size as int != 0 {
        1int
    } else {
        0int
    });
    if covering + 1 <= usize::MAX {
        covering + 1
    } else {
        usize::MAX as int
    }
}

/// Number of steps an eviction leaves: the steps to keep, but no more than
/// the window holds.
pub open spec fn kept_steps(keep: int, max_steps: int) -> int {
    if keep <= max_steps {
        keep
    } else {
        max_steps
    }
}

/// The window `[first, first + steps.len())` with zero steps appended up to
/// and including `target`.
pub open spec fn extended_steps(first: int, steps: Seq<Stats>, target: int) -> Seq<Stats> {
    steps + zero_steps((target + 1 - first - steps.len()) as nat)
}

/// Whether extending the window up to `target` makes it hold more than `max_steps` steps.
pub open spec fn extension_evicts(first: int, target: int, max_steps: int) -> bool {
    target + 1 - first > max_steps
}

/// The index of the oldest step once the window is extended up to `target`.
pub open spec fn first_after_extension(first: int, target: int, max_steps: int, keep: int) -> int {
    if extension_evicts(first, target, max_steps) {
        target + 1 - kept_steps(keep, max_steps)
    } else {
        first
    }
}

/// The steps retained once the window is extended up to `target`.
pub open spec fn steps_after_extension(
    first: int,
    steps: Seq<Stats>,
    target: int,
    max_steps: int,
    keep: int,
) -> Seq<Stats> {
    let ext = extended_steps(first, steps, target);
    ext.subrange(first_after_extension(first, target, max_steps, keep) - first, ext.len() as int)
}

/// The steps dropped, oldest first, when the window is extended up to `target`,
/// each with its absolute start time.
pub open spec fn evicted_by_extension(
    first: int,
    steps: Seq<Stats>,
    target: int,
    max_steps: int,
    keep: int,
    step_size: u64,
) -> Seq<(u64, Stats)> {
    let ext = extended_steps(first, steps, target);
    Seq::new(
        (first_after_extension(first, target, max_steps, keep) - first) as nat,
        |i: int| (((first + i) * step_size) as u64, ext[i]),
    )
}

/// What an aggregator holds: the window of retained steps, and the evicted
/// steps not taken yet.
pub struct WindowModel {
    /// Absolute index of the oldest retained step.
    pub first: int,
    /// The retained steps: `steps[k]` is step `first + k`.
    pub steps: Seq<Stats>,
    /// Evicted steps not taken yet, oldest first, with their start times.
    pub evicted: Seq<(u64, Stats)>,
}

impl WindowModel {
    /// The counters of absolute step `idx`, if the window holds it.
    pub open spec fn step_at(self, idx: int) -> Option<Stats> {
        if self.first <= idx < self.first + self.steps.len() {
            Some(self.steps[idx - self.first])
        } else {
            None
        }
    }

    /// One past the newest retained step.
    pub open spec fn end(self) -> int {
        self.first + self.steps.len()
    }
}

/// The time-bucketed counters, with the window of retained steps.
pub struct StatsAggregator {
    /// Duration of each step.
    step_size: u64,
    /// Largest number of steps the window holds.
    max_steps: usize,
    /// Number of steps kept after an eviction.
    eviction_steps_to_keep: usize,
    /// Whether evicted steps are kept for the caller.
    record_evicted: bool,
    /// Absolute index of the first step of `steps_buf`.
    first_step_idx: u64,
    /// The retained steps, oldest first. A `Vec`, whose elements can be lent
    /// out for update in place (`get_step_mut`).
    steps_buf: Vec<Stats>,
    /// Evicted steps not yet taken by the caller, with their start times.
    evicted: Vec<(u64, Stats)>,
}

impl View for StatsAggregator {
    type V = WindowModel;

    closed spec fn view(&self) -> WindowModel {
        WindowModel {
            first: self.first_step_idx as int,
            steps: self.steps_buf@,
            evicted: self.evicted@,
        }
    }
}

impl StatsAggregator {
    /// Duration of each step.
    pub closed spec fn spec_step_size(&self) -> u64 {
        self.step_size
    }

    /// Largest number of steps the window holds.
    pub closed spec fn spec_max_steps(&self) -> usize {
        self.max_steps
    }

    /// Number of steps kept after an eviction.
    pub closed spec fn spec_keep(&self) -> usize {
        self.eviction_steps_to_keep
    }

    /// Whether evicted steps are kept for the caller.
    pub closed spec fn spec_records_evicted(&self) -> bool {
        self.record_evicted
    }

    /// The largest step index that a time value can have.
    pub open spec fn last_step_index(&self) -> int {
        u64::MAX as int / self.spec_step_size() as int
    }

    /// The invariant of the aggregator.
    pub open spec fn wf(&self) -> bool {
        &&& self.spec_step_size() > 0
        &&& self@.first >= 0
        &&& 1 <= self.spec_keep()
        &&& 1 <= self.spec_max_steps()
        &&& self@.steps.len() <= self.spec_max_steps()
        &&& self@.first + self@.steps.len() <= self.last_step_index() + 1
    }

    /// The parameters are those of `other`.
    pub open spec fn same_config(&self, other: &Self) -> bool {
        &&& self.spec_step_size() == other.spec_step_size()
        &&& self.spec_max_steps() == other.spec_max_steps()
        &&& self.spec_keep() == other.spec_keep()
        &&& self.spec_records_evicted() == other.spec_records_evicted()
    }

    /// The window `w` once it is made to reach step `target` (`w` as it is when
    /// it already does), under this aggregator's parameters.
    pub open spec fn reaching_in(&self, w: WindowModel, target: int) -> WindowModel {
        if target < w.end() {
            w
        } else {
            let first = first_after_extension(
                w.first,
                target,
                self.spec_max_steps() as int,
                self.spec_keep() as int,
            );
            let steps = steps_after_extension(
                w.first,
                w.steps,
                target,
                self.spec_max_steps() as int,
                self.spec_keep() as int,
            );
            let evicted = if self.spec_records_evicted() {
                w.evicted + evicted_by_extension(
                    w.first,
                    w.steps,
                    target,
                    self.spec_max_steps() as int,
                    self.spec_keep() as int,
                    self.spec_step_size(),
                )
            } else {
                w.evicted
            };
            WindowModel { first, steps, evicted }
        }
    }

    /// The aggregator's window once it is made to reach step `target`.
    pub open spec fn reaching(&self, target: int) -> WindowModel {
        self.reaching_in(self@, target)
    }

    /// What the window `w` becomes when `delta` is added to the step of `time`,
    /// under this aggregator's parameters.
    pub open spec fn access_in(&self, w: WindowModel, time: u64, delta: Stats) -> WindowModel {
        let target = step_of(time, self.spec_step_size());
        if target < w.first {
            w
        } else {
            let r = self.reaching_in(w, target);
            WindowModel {
                first: r.first,
                steps: r.steps.update(target - r.first, add_stats(r.steps[target - r.first], delta)),
                evicted: r.evicted,
            }
        }
    }

    /// Whether `time` falls in a step that has not been evicted yet.
    pub open spec fn accepts(&self, time: u64) -> bool {
        step_of(time, self.spec_step_size()) >= self@.first
    }

    /// What the aggregator holds after `delta` is added to the step of `time`.
    pub open spec fn after_access(&self, time: u64, delta: Stats) -> WindowModel {
        self.access_in(self@, time, delta)
    }
}


/// A step's start time fits a `u64`: `idx * step_size` for an index that a time value has.
proof fn lemma_step_time_fits(idx: int, step_size: int)
    requires
        step_size > 0,
        0 <= idx <= u64::MAX as int / step_size,
    ensures
        0 <= idx * step_size <= u64::MAX,
{
    let m = u64::MAX as int;
    assert(idx * step_size <= (m / step_size) * step_size) by (nonlinear_arith)
        requires
            step_size > 0,
            idx <= m / step_size,
    ;
    assert((m / step_size) * step_size <= m) by (nonlinear_arith)
        requires
            step_size > 0,
            m >= 0,
    ;
    assert(0 <= idx * step_size) by (nonlinear_arith)
        requires
            step_size > 0,
            idx >= 0,
    ;
}

/// The step index of a time value is at most the last step index.
pub proof fn lemma_step_of_bounded(time: u64, step_size: u64)
    requires
        step_size > 0,
    ensures
        0 <= step_of(time, step_size) <= u64::MAX as int / step_size as int,
{
    let t = time as int;
    let s = step_size as int;
    let m = u64::MAX as int;
    assert(t / s <= m / s) by (nonlinear_arith)
        requires
            s > 0,
            t <= m,
    ;
    assert(0 <= t / s) by (nonlinear_arith)
        requires
            s > 0,
            t >= 0,
    ;
}

impl Stats {
    /// A step with every counter at zero.
    pub fn zero() -> (r: Stats)
        ensures
            r == zero_stats(),
    {
        Stats { tx_packets: 0, rx_packets: 0, rx_packets_sent_here: 0, total_latency_sent_here: 0 }
    }

    /// Adds the counters of `d` to those of `self`, wrapping as an atomic fetch-add does.
    pub fn add(&mut self, d: &Stats)
        ensures
            *final(self) == add_stats(*old(self), *d),
    {
        self.tx_packets = self.tx_packets.wrapping_add(d.tx_packets);
        self.rx_packets = self.rx_packets.wrapping_add(d.rx_packets);
        self.rx_packets_sent_here = self.rx_packets_sent_here.wrapping_add(d.rx_packets_sent_here);
        self.total_latency_sent_here = self.total_latency_sent_here.wrapping_add(
            d.total_latency_sent_here,
        );
    }
}

impl StatsAggregator {
    /// Creates an aggregator with an empty window starting at step 0.
    ///
    /// An eviction keeps `⌈evict_threshold / step_size⌉ + 1` steps, or the
    /// whole window of `max_steps` steps when that is fewer. With `record_evicted`, evicted steps are kept for
    /// `take_evicted`; otherwise they are dropped.
    pub fn new(step_size: u64, max_steps: usize, evict_threshold: u64, record_evicted: bool) -> (r: Self)
        requires
            step_size > 0,
            max_steps > 0,
        ensures
            r.wf(),
            r.spec_step_size() == step_size,
            r.spec_max_steps() == max_steps,
            r.spec_keep() == steps_to_keep(step_size, evict_threshold),
            r.spec_records_evicted() == record_evicted,
            r@.first == 0,
            r@.steps == Seq::<Stats>::empty(),
            r@.evicted == Seq::<(u64, Stats)>::empty(),
    {
        proof {
            let t = evict_threshold as int;
            let s = step_size as int;
            if s == 1 {
                assert(t % s == 0) by (nonlinear_arith)
                    requires
                        s == 1,
                ;
            } else {
                assert(t / s < u64::MAX) by (nonlinear_arith)
                    requires
                        s >= 2,
                        0 <= t <= u64::MAX,
                ;
            }
        }
        let covering: u64 = evict_threshold / step_size + if evict_threshold % step_size != 0 {
            1u64
        } else {
            0u64
        };
        let keep: usize = if (covering as u128) < usize::MAX as u128 {
            covering as usize + 1
        } else {
            usize::MAX
        };
        StatsAggregator {
            step_size,
            max_steps,
            eviction_steps_to_keep: keep,
            record_evicted,
            first_step_idx: 0,
            steps_buf: Vec::new(),
            evicted: Vec::new(),
        }
    }

    /// Extends the window up to and including step `target`, evicting the oldest
    /// steps when it then holds more than `max_steps`.
    fn extend_to(&mut self, target: u64)
        requires
            old(self).wf(),
            target >= old(self)@.first + old(self)@.steps.len(),
            target <= old(self).last_step_index(),
        ensures
            final(self).wf(),
            final(self).same_config(old(self)),
            final(self)@ == old(self).reaching(target as int),
    {
        let first = self.first_step_idx;
        let len = self.steps_buf.len();
        let ghost old_steps = self.steps_buf@;
        let ghost old_evicted = self.evicted@;
        let ghost ext = extended_steps(first as int, old_steps, target as int);
        assert(ext.len() == target + 1 - first);
        let total: u64 = target - first;
        if total < self.max_steps as u64 {
            let count: usize = total as usize + 1;
            while self.steps_buf.len() < count
                invariant
                    len <= self.steps_buf@.len() <= count,
                    count == ext.len(),
                    self.steps_buf@ == ext.subrange(0, self.steps_buf@.len() as int),
                    self.first_step_idx == first,
                    self.evicted@ == old_evicted,
                    old_steps.len() == len,
                    ext == extended_steps(first as int, old_steps, target as int),
                    self.step_size == old(self).step_size,
                    self.max_steps == old(self).max_steps,
                    self.eviction_steps_to_keep == old(self).eviction_steps_to_keep,
                    self.record_evicted == old(self).record_evicted,
                decreases count - self.steps_buf@.len(),
            {
                let ghost n = self.steps_buf@.len();
                self.steps_buf.push(Stats::zero());
                assert(self.steps_buf@ =~= ext.subrange(0, n as int + 1));
            }
            assert(self.steps_buf@ =~= ext);
        } else {
            let keep: usize = if self.eviction_steps_to_keep <= self.max_steps {
                self.eviction_steps_to_keep
            } else {
                self.max_steps
            };
            assert(keep == kept_steps(self.eviction_steps_to_keep as int, self.max_steps as int));
            let nf: u64 = target - (keep as u64 - 1);
            let d: u64 = nf - first;
            let ghost evs = evicted_by_extension(
                first as int,
                old_steps,
                target as int,
                self.max_steps as int,
                keep as int,
                self.step_size,
            );
            assert(evs.len() == d);
            let mut kept: Vec<Stats> = Vec::new();
            let mut k: usize = 0;
            while k < len
                invariant
                    k <= len,
                    len == old_steps.len(),
                    self.steps_buf@ == old_steps,
                    first + len <= nf + keep,
                    first + len <= u64::MAX as int / self.step_size as int + 1,
                    d == nf - first,
                    evs.len() == d,
                    ext == extended_steps(first as int, old_steps, target as int),
                    evs == evicted_by_extension(
                        first as int,
                        old_steps,
                        target as int,
                        self.max_steps as int,
                        keep as int,
                        self.step_size,
                    ),
                    nf <= target <= u64::MAX as int / self.step_size as int,
                    self.step_size > 0,
                    self.record_evicted ==> self.evicted@ == old_evicted + evs.subrange(
                        0,
                        if k <= d { k as int } else { d as int },
                    ),
                    !self.record_evicted ==> self.evicted@ == old_evicted,
                    kept@ == ext.subrange(d as int, if k <= d { d as int } else { k as int }),
                    self.first_step_idx == first,
                    self.step_size == old(self).step_size,
                    self.max_steps == old(self).max_steps,
                    self.eviction_steps_to_keep == old(self).eviction_steps_to_keep,
                    keep as int == kept_steps(self.eviction_steps_to_keep as int, self.max_steps as int),
                    self.record_evicted == old(self).record_evicted,
                decreases len - k,
            {
                let idx: u64 = first + k as u64;
                let s = self.steps_buf[k];
                if idx < nf {
                    if self.record_evicted {
                        proof {
                            lemma_step_time_fits(idx as int, self.step_size as int);
                        }
                        let ghost before = self.evicted@;
                        self.evicted.push((idx * self.step_size, s));
                        assert(self.evicted@ =~= old_evicted + evs.subrange(0, k + 1));
                    }
                } else {
                    kept.push(s);
                    assert(kept@ =~= ext.subrange(d as int, k + 1));
                }
                k = k + 1;
            }
            if self.record_evicted {
                let mut g: u64 = len as u64;
                while g < d
                    invariant
                        len <= g <= d || d <= len,
                        len == old_steps.len(),
                        d == nf - first,
                        evs.len() == d,
                        ext == extended_steps(first as int, old_steps, target as int),
                        evs == evicted_by_extension(
                            first as int,
                            old_steps,
                            target as int,
                            self.max_steps as int,
                            keep as int,
                            self.step_size,
                        ),
                        nf <= target <= u64::MAX as int / self.step_size as int,
                        self.step_size > 0,
                        g <= d ==> self.evicted@ == old_evicted + evs.subrange(0, g as int),
                        d <= len ==> self.evicted@ == old_evicted + evs,
                        kept@ == ext.subrange(d as int, if len <= d { d as int } else { len as int }),
                        self.first_step_idx == first,
                        self.step_size == old(self).step_size,
                        self.max_steps == old(self).max_steps,
                        self.eviction_steps_to_keep == old(self).eviction_steps_to_keep,
                    keep as int == kept_steps(self.eviction_steps_to_keep as int, self.max_steps as int),
                        self.record_evicted == old(self).record_evicted,
                    decreases d - g,
                {
                    proof {
                        lemma_step_time_fits((first + g) as int, self.step_size as int);
                    }
                    self.evicted.push(((first + g) * self.step_size, Stats::zero()));
                    assert(self.evicted@ =~= old_evicted + evs.subrange(0, g + 1));
                    g = g + 1;
                }
                assert(self.evicted@ =~= old_evicted + evs);
            }
            while kept.len() < keep
                invariant
                    kept@ == ext.subrange(d as int, d + kept@.len()),
                    kept@.len() <= keep,
                    d + keep == ext.len(),
                    d + kept@.len() >= len,
                    ext == extended_steps(first as int, old_steps, target as int),
                    len == old_steps.len(),
                    self.first_step_idx == first,
                    self.step_size == old(self).step_size,
                    self.max_steps == old(self).max_steps,
                    self.eviction_steps_to_keep == old(self).eviction_steps_to_keep,
                    keep as int == kept_steps(self.eviction_steps_to_keep as int, self.max_steps as int),
                    self.record_evicted == old(self).record_evicted,
                    self.record_evicted ==> self.evicted@ == old_evicted + evs,
                    !self.record_evicted ==> self.evicted@ == old_evicted,
                decreases keep - kept@.len(),
            {
                let ghost n = kept@.len();
                kept.push(Stats::zero());
                assert(kept@ =~= ext.subrange(d as int, d + n as int + 1));
            }
            self.steps_buf = kept;
            self.first_step_idx = nf;
        }
    }
}


impl StatsAggregator {
    /// Once the window is made to reach a step at or after its start, it holds that step.
    pub proof fn lemma_reaching_holds_target(&self, target: int)
        requires
            self.wf(),
            self@.first <= target,
        ensures
            self.reaching(target).first <= target < self.reaching(target).end(),
            self@.first <= self.reaching(target).first,
    {
        if target >= self@.first + self@.steps.len() {
            let ext = extended_steps(self@.first, self@.steps, target);
            assert(ext.len() == target + 1 - self@.first);
        }
    }

    /// Adds `delta` to the counters of the step of `time`.
    ///
    /// Returns `false`, changing nothing, when that step is older than the
    /// window. When it lies past the window, the window is first extended up to
    /// it, evicting the oldest steps if it then holds more than `max_steps`.
    pub fn access_step(&mut self, time: u64, delta: &Stats) -> (accepted: bool)
        requires
            old(self).wf(),
        ensures
            final(self).wf(),
            final(self).same_config(old(self)),
            accepted == old(self).accepts(time),
            final(self)@ == old(self).after_access(time, *delta),
    {
        match self.get_step_mut(time) {
            Some(s) => {
                s.add(delta);
                true
            },
            None => false,
        }
    }

    /// The counters of the step of `time`, to be updated in place.
    ///
    /// `None`, changing nothing, when that step is older than the window. When
    /// it lies past the window, the window is first extended up to it, evicting
    /// the oldest steps if it then holds more than `max_steps`.
    pub fn get_step_mut(&mut self, time: u64) -> (r: Option<&mut Stats>)
        requires
            old(self).wf(),
        ensures
            final(self).wf(),
            final(self).same_config(old(self)),
            r is Some == old(self).accepts(time),
            r is None ==> final(self)@ == old(self)@,
            r matches Some(s) ==> {
                let target = step_of(time, old(self).spec_step_size());
                let steps = old(self).reaching(target).steps;
                let first = old(self).reaching(target).first;
                &&& *s == steps[target - first]
                &&& final(self)@.first == first
                &&& final(self)@.steps == steps.update(target - first, *final(s))
                &&& final(self)@.evicted == old(self).reaching(target).evicted
            },
    {
        let step = time / self.step_size;
        proof {
            lemma_step_of_bounded(time, self.step_size);
        }
        if step < self.first_step_idx {
            return None;
        }
        proof {
            self.lemma_reaching_holds_target(step as int);
        }
        if step - self.first_step_idx >= self.steps_buf.len() as u64 {
            self.extend_to(step);
        }
        let i = (step - self.first_step_idx) as usize;
        Some(&mut self.steps_buf[i])
    }

    /// Hands over the evicted steps not taken yet, oldest first, each with its
    /// absolute start time.
    pub fn take_evicted(&mut self) -> (r: Vec<(u64, Stats)>)
        requires
            old(self).wf(),
        ensures
            final(self).wf(),
            final(self).same_config(old(self)),
            r@ == old(self)@.evicted,
            final(self)@ == (WindowModel { evicted: Seq::empty(), ..old(self)@ }),
    {
        let r = self.evicted.split_off(0);
        assert(self.evicted@ =~= Seq::<(u64, Stats)>::empty());
        r
    }
}

/// No more packets were counted as received for having been sent in the step
/// than were counted as sent in it.
pub open spec fn sent_here_within_tx(s: Stats) -> bool {
    s.rx_packets_sent_here <= s.tx_packets
}

impl StatsAggregator {
    /// A window that this aggregator could hold: within the step indices that
    /// time values have, and no longer than `max_steps`.
    pub open spec fn window_ok(&self, v: WindowModel) -> bool {
        &&& 0 <= v.first
        &&& v.steps.len() <= self.spec_max_steps()
        &&& v.end() <= self.last_step_index() + 1
    }

    /// What making a window reach `target` keeps: old steps stay where they
    /// were, new steps start at zero, and the dropped ones are evicted in order.
    pub proof fn lemma_reaching_in(&self, v: WindowModel, target: int)
        requires
            self.wf(),
            self.window_ok(v),
            v.first <= target <= self.last_step_index(),
        ensures
            ({
                let w = self.reaching_in(v, target);
                &&& v.first <= w.first <= target < w.end()
                &&& v.end() <= w.end()
                &&& w.steps.len() <= self.spec_max_steps()
                &&& forall|j: int|
                    w.first <= j < w.end() ==> #[trigger] w.step_at(j) == Some(
                        if j < v.end() {
                            v.steps[j - v.first]
                        } else {
                            zero_stats()
                        },
                    )
                &&& w.end() == if target < v.end() {
                    v.end()
                } else {
                    target + 1
                }
                &&& self.spec_records_evicted() ==> w.evicted.len() == v.evicted.len() + (
                w.first - v.first)
                &&& self.spec_records_evicted() ==> w.evicted.subrange(0, v.evicted.len() as int)
                    == v.evicted
                &&& self.spec_records_evicted() ==> forall|i: int|
                    0 <= i < w.first - v.first ==> #[trigger] w.evicted[v.evicted.len()
                        + i] == (((v.first + i) * self.spec_step_size()) as u64, if v.first
                        + i < v.end() {
                        v.steps[i]
                    } else {
                        zero_stats()
                    })
                &&& !self.spec_records_evicted() ==> w.evicted == v.evicted
            }),
    {
        let w = self.reaching_in(v, target);
        if target >= v.end() {
            let ext = extended_steps(v.first, v.steps, target);
            assert(ext.len() == target + 1 - v.first);
            assert forall|j: int| w.first <= j < w.end() implies #[trigger] w.step_at(j) == Some(
                if j < v.end() {
                    v.steps[j - v.first]
                } else {
                    zero_stats()
                },
            ) by {
                assert(w.steps[j - w.first] == ext[j - v.first]);
            }
            if self.spec_records_evicted() {
                let ev = evicted_by_extension(
                    v.first,
                    v.steps,
                    target,
                    self.spec_max_steps() as int,
                    self.spec_keep() as int,
                    self.spec_step_size(),
                );
                assert(w.evicted.subrange(0, v.evicted.len() as int) =~= v.evicted);
                assert forall|i: int| 0 <= i < w.first - v.first implies #[trigger] w.evicted[
                    v.evicted.len() + i] == (((v.first + i) * self.spec_step_size()) as u64,
                    if v.first + i < v.end() {
                        v.steps[i]
                    } else {
                        zero_stats()
                    }) by {
                    assert(w.evicted[v.evicted.len() + i] == ev[i]);
                }
            }
        }
    }

    /// The same, for the aggregator's own window.
    pub proof fn lemma_reaching(&self, target: int)
        requires
            self.wf(),
            self@.first <= target <= self.last_step_index(),
        ensures
            ({
                let w = self.reaching(target);
                &&& self@.first <= w.first <= target < w.end()
                &&& self@.end() <= w.end()
                &&& w.steps.len() <= self.spec_max_steps()
                &&& forall|j: int|
                    w.first <= j < w.end() ==> #[trigger] w.step_at(j) == Some(
                        if j < self@.end() {
                            self@.steps[j - self@.first]
                        } else {
                            zero_stats()
                        },
                    )
                &&& self.spec_records_evicted() ==> w.evicted.len() == self@.evicted.len() + (
                w.first - self@.first)
                &&& self.spec_records_evicted() ==> w.evicted.subrange(0, self@.evicted.len() as int)
                    == self@.evicted
                &&& self.spec_records_evicted() ==> forall|i: int|
                    0 <= i < w.first - self@.first ==> #[trigger] w.evicted[self@.evicted.len()
                        + i] == (((self@.first + i) * self.spec_step_size()) as u64, if self@.first
                        + i < self@.end() {
                        self@.steps[i]
                    } else {
                        zero_stats()
                    })
                &&& !self.spec_records_evicted() ==> w.evicted == self@.evicted
            }),
    {
        self.lemma_reaching_in(self@, target);
    }

    /// Counters only grow: adding to a step, and extending or evicting the window,
    /// lowers no counter of a step that stays in the window, as long as the
    /// addition does not wrap.
    pub proof fn lemma_access_monotone(&self, time: u64, delta: Stats)
        requires
            self.wf(),
            self.accepts(time) ==> adds_without_overflow(
                self.reaching(step_of(time, self.spec_step_size())).step_at(
                    step_of(time, self.spec_step_size()),
                )->0,
                delta,
            ),
        ensures
            forall|j: int|
                self@.step_at(j) is Some && #[trigger] self.after_access(time, delta).step_at(j) is Some
                    ==> stats_le(self@.step_at(j)->0, self.after_access(time, delta).step_at(j)->0),
    {
        let t = step_of(time, self.spec_step_size());
        lemma_step_of_bounded(time, self.spec_step_size());
        if self.accepts(time) {
            self.lemma_reaching(t);
            let w = self.reaching(t);
            let a = self.after_access(time, delta);
            assert forall|j: int|
                self@.step_at(j) is Some && #[trigger] a.step_at(j) is Some implies stats_le(
                self@.step_at(j)->0,
                a.step_at(j)->0,
            ) by {
                assert(w.step_at(j) is Some);
            }
        }
    }

    /// The window stays dense and moves only forward: after an access it still
    /// ends no earlier, holds at most `max_steps` steps, holds the accessed step,
    /// and every step that left it was evicted, oldest first, with its start time.
    pub proof fn lemma_access_window_dense(&self, time: u64, delta: Stats)
        requires
            self.wf(),
        ensures
            ({
                let w = self.after_access(time, delta);
                let t = step_of(time, self.spec_step_size());
                &&& self@.first <= w.first
                &&& self@.end() <= w.end()
                &&& w.steps.len() <= self.spec_max_steps()
                &&& self.accepts(time) ==> w.step_at(t) is Some
                &&& self.spec_records_evicted() ==> w.evicted.len() == self@.evicted.len() + (w.first
                    - self@.first)
                &&& self.spec_records_evicted() ==> forall|i: int|
                    0 <= i < w.first - self@.first ==> (#[trigger] w.evicted[self@.evicted.len()
                        + i]).0 == (self@.first + i) * self.spec_step_size()
            }),
    {
        let t = step_of(time, self.spec_step_size());
        lemma_step_of_bounded(time, self.spec_step_size());
        if self.accepts(time) {
            self.lemma_reaching(t);
            let w = self.reaching(t);
            if self.spec_records_evicted() {
                assert forall|i: int| 0 <= i < w.first - self@.first implies (
                #[trigger] w.evicted[self@.evicted.len() + i]).0 == (self@.first + i)
                    * self.spec_step_size() by {
                    lemma_step_time_fits(self@.first + i, self.spec_step_size() as int);
                }
            }
        }
    }
}

impl StatsAggregator {
    /// Absolute index of the oldest retained step.
    pub fn first_step_idx(&self) -> (r: u64)
        ensures
            r == self@.first,
    {
        self.first_step_idx
    }

    /// Number of retained steps.
    pub fn window_len(&self) -> (r: usize)
        ensures
            r == self@.steps.len(),
    {
        self.steps_buf.len()
    }

    /// Duration of each step.
    pub fn step_size(&self) -> (r: u64)
        ensures
            r == self.spec_step_size(),
    {
        self.step_size
    }
}

} // verus!
