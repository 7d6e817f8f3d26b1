//! Bookkeeping of the io_uring echo engine.
//!
//! Each ring has `K` packet slots. Every slot is in one of two states,
//! `RecvInProgress` or `SendInProgress`: the request it was last posted for
//! (a new slot starts in `RecvInProgress`). Apart from its state, a slot is
//! owned by the kernel while a submission that names it is outstanding, and by
//! the engine otherwise. A
//! received packet is echoed from the slot it landed in, and once the send
//! completes the slot is posted for receiving again:
//!
//! | state          | completion     | next submission        |
//! |----------------|----------------|------------------------|
//! | RecvInProgress | result <= 0    | recv on the same slot  |
//! | RecvInProgress | result > 0     | send of `result` bytes |
//! | SendInProgress | any            | recv on the same slot  |
//!
//! The ring itself lives with the caller: this module decides, the caller
//! submits and reports back what the ring did.

use vstd::prelude::*;

use crate::errors::AppError;
use crate::stats::{one_rx, one_tx, Stats, StatsAggregator};

verus! {

broadcast use vstd::std_specs::hash::group_hash_axioms;

/// The two kinds of submissions.
#[derive(Debug, Clone, Copy, PartialEq, Eq, Structural)]
pub enum RequestKind {
    Recv,
    Send,
}

/// The request a slot is posted for.
#[derive(Debug, Clone, Copy, PartialEq, Eq, Structural)]
pub enum SlotState {
    /// The slot receives a packet.
    RecvInProgress,
    /// The slot sends its packet back.
    SendInProgress,
}

/// A slot: its state, and whether the submission for it is outstanding (the
/// kernel owns the slot) or not (the engine owns it).
#[derive(Debug, Clone, Copy, PartialEq, Eq, Structural)]
pub struct Slot {
    pub state: SlotState,
    pub outstanding: bool,
}

/// What the caller does next with the slot of a completion.
#[derive(Debug, Clone, Copy, PartialEq, Eq, Structural)]
pub enum NextSubmission {
    /// The receive brought nothing: post a receive on the slot again.
    Repost { slot: usize },
    /// The receive brought `len` bytes: send them back from the slot.
    Echo { slot: usize, len: usize },
    /// The send is done: post a receive on the slot again.
    Recycle { slot: usize },
}

impl RequestKind {
    /// The name of the request, as error messages give it.
    pub fn name(&self) -> (r: &'static str)
        ensures
            r@ == kind_name(*self),
    {
        match self {
            RequestKind::Recv => "recv",
            RequestKind::Send => "send",
        }
    }
}

impl RequestKind {
    /// The state of a slot while a request of this kind on it is outstanding.
    pub fn state_in_progress(&self) -> (r: SlotState)
        ensures
            r == in_progress(*self),
    {
        match self {
            RequestKind::Recv => SlotState::RecvInProgress,
            RequestKind::Send => SlotState::SendInProgress,
        }
    }
}

pub open spec fn kind_name(k: RequestKind) -> Seq<char> {
    match k {
        RequestKind::Recv => "recv"@,
        RequestKind::Send => "send"@,
    }
}

/// The state of a slot while a request of kind `k` on it is outstanding.
pub open spec fn in_progress(k: RequestKind) -> SlotState {
    match k {
        RequestKind::Recv => SlotState::RecvInProgress,
        RequestKind::Send => SlotState::SendInProgress,
    }
}

/// The slot has an outstanding receive.
pub open spec fn receiving(x: Slot) -> bool {
    x.outstanding && x.state == SlotState::RecvInProgress
}

/// Number of slots with an outstanding receive.
pub open spec fn count_recv(s: Seq<Slot>) -> nat
    decreases s.len(),
{
    if s.len() == 0 {
        0
    } else {
        count_recv(s.drop_last()) + if receiving(s.last()) {
            1nat
        } else {
            0nat
        }
    }
}

proof fn lemma_count_recv_bounded(s: Seq<Slot>)
    ensures
        count_recv(s) <= s.len(),
    decreases s.len(),
{
    if s.len() > 0 {
        lemma_count_recv_bounded(s.drop_last());
    }
}

proof fn lemma_count_recv_update(s: Seq<Slot>, i: int, x: Slot)
    requires
        0 <= i < s.len(),
    ensures
        count_recv(s.update(i, x)) + (if receiving(s[i]) {
            1int
        } else {
            0int
        }) == count_recv(s) + (if receiving(x) {
            1int
        } else {
            0int
        }),
    decreases s.len(),
{
    let u = s.update(i, x);
    if i == s.len() - 1 {
        assert(u.drop_last() =~= s.drop_last());
    } else {
        assert(u.drop_last() =~= s.drop_last().update(i, x));
        lemma_count_recv_update(s.drop_last(), i, x);
    }
}

/// The slots of one ring, with the tags that tie completions to slots.
pub struct SlotTable {
    slots: Vec<Slot>,
    nb_active_recv: usize,
    /// With tags, each submission carries a fresh tag that is recorded with its
    /// slot; without, it carries the slot index.
    debug: bool,
    request_tags: std::collections::HashMap<u64, (usize, RequestKind)>,
    next_request_tag: u64,
}

impl SlotTable {
    /// The slots.
    pub closed spec fn spec_slots(&self) -> Seq<Slot> {
        self.slots@
    }

    /// Number of receives in flight.
    pub closed spec fn spec_active_recv(&self) -> nat {
        self.nb_active_recv as nat
    }

    /// Whether submissions carry recorded tags.
    pub closed spec fn spec_debug(&self) -> bool {
        self.debug
    }

    /// The recorded tags, with the slot and kind of their submission.
    pub closed spec fn spec_tags(&self) -> Map<u64, (usize, RequestKind)> {
        self.request_tags@
    }

    /// The next tag to issue.
    pub closed spec fn spec_next_tag(&self) -> u64 {
        self.next_request_tag
    }

    /// Number of slots.
    pub open spec fn capacity(&self) -> nat {
        self.spec_slots().len()
    }

    /// The invariant: the count of receives in flight is exact, and with tags,
    /// each recorded tag was issued, names an outstanding slot posted for its
    /// kind, and no two tags name the same slot.
    pub open spec fn wf(&self) -> bool {
        &&& self.capacity() <= usize::MAX
        &&& self.spec_active_recv() == count_recv(self.spec_slots())
        &&& self.spec_debug() ==> forall|t: u64|
            #[trigger] self.spec_tags().contains_key(t) ==> {
                &&& t < self.spec_next_tag()
                &&& self.spec_tags()[t].0 < self.capacity()
                &&& self.spec_slots()[self.spec_tags()[t].0 as int] == (Slot {
                    state: in_progress(self.spec_tags()[t].1),
                    outstanding: true,
                })
            }
        &&& self.spec_debug() ==> forall|t1: u64, t2: u64|
            #[trigger] self.spec_tags().contains_key(t1) && #[trigger] self.spec_tags().contains_key(
                t2,
            ) && self.spec_tags()[t1].0 == self.spec_tags()[t2].0 ==> t1 == t2
        &&& !self.spec_debug() ==> self.spec_tags() == Map::<u64, (usize, RequestKind)>::empty()
    }

    /// The slot that a completion carrying `user_data` is for, if it is for an
    /// outstanding submission.
    pub open spec fn slot_of(&self, user_data: u64) -> Option<usize> {
        if self.spec_debug() {
            if self.spec_tags().contains_key(user_data) {
                Some(self.spec_tags()[user_data].0)
            } else {
                None
            }
        } else if user_data < self.capacity() && self.spec_slots()[user_data as int].outstanding {
            Some(user_data as usize)
        } else {
            None
        }
    }

    /// A table of `ring_size` slots, each in `RecvInProgress` and owned by the
    /// engine.
    pub fn new(ring_size: usize, debug: bool) -> (r: SlotTable)
        ensures
            r.wf(),
            r.spec_slots() == Seq::new(
                ring_size as nat,
                |i: int| Slot { state: SlotState::RecvInProgress, outstanding: false },
            ),
            r.spec_active_recv() == 0,
            r.spec_debug() == debug,
            r.spec_tags() == Map::<u64, (usize, RequestKind)>::empty(),
            r.spec_next_tag() == 0,
    {
        let mut slots: Vec<Slot> = Vec::new();
        while slots.len() < ring_size
            invariant
                slots@ == Seq::new(
                    slots@.len(),
                    |i: int| Slot { state: SlotState::RecvInProgress, outstanding: false },
                ),
                slots@.len() <= ring_size,
                count_recv(slots@) == 0,
            decreases ring_size - slots@.len(),
        {
            let ghost before = slots@;
            slots.push(Slot { state: SlotState::RecvInProgress, outstanding: false });
            assert(slots@.drop_last() =~= before);
            assert(slots@ =~= Seq::new(
                slots@.len(),
                |i: int| Slot { state: SlotState::RecvInProgress, outstanding: false },
            ));
        }
        let r = SlotTable {
            slots,
            nb_active_recv: 0,
            debug,
            request_tags: std::collections::HashMap::new(),
            next_request_tag: 0,
        };
        assert(r.spec_tags() =~= Map::<u64, (usize, RequestKind)>::empty());
        r
    }

    /// The state of slot `index`.
    pub fn slot_state(&self, index: usize) -> (r: SlotState)
        requires
            index < self.capacity(),
        ensures
            r == self.spec_slots()[index as int].state,
    {
        self.slots[index].state
    }

    /// Whether a submission for slot `index` is outstanding.
    pub fn is_outstanding(&self, index: usize) -> (r: bool)
        requires
            index < self.capacity(),
        ensures
            r == self.spec_slots()[index as int].outstanding,
    {
        self.slots[index].outstanding
    }

    /// Number of slots.
    pub fn ring_size(&self) -> (r: usize)
        ensures
            r == self.capacity(),
    {
        self.slots.len()
    }

    /// Number of receives in flight.
    pub fn nb_active_recv(&self) -> (r: usize)
        ensures
            r == self.spec_active_recv(),
    {
        self.nb_active_recv
    }

    /// The user data to put on the next submission for slot `index`: a fresh
    /// tag with tags, the slot index without. Fails only when the tags run out.
    pub fn user_data_for(&self, index: usize) -> (r: Result<u64, AppError>)
        ensures
            self.spec_debug() && self.spec_next_tag() == u64::MAX ==> r is Err,
            self.spec_debug() && self.spec_next_tag() < u64::MAX ==> r == Ok::<u64, AppError>(
                self.spec_next_tag(),
            ),
            !self.spec_debug() ==> r == Ok::<u64, AppError>(index as u64),
    {
        if self.debug {
            if self.next_request_tag == u64::MAX {
                Err(AppError::NotImplemented("more than 2^64 tagged requests"))
            } else {
                Ok(self.next_request_tag)
            }
        } else {
            Ok(index as u64)
        }
    }

    /// Records the outcome of pushing a `kind` submission for slot `index`,
    /// which the engine owns, with the user data from `user_data_for`. When the
    /// submission queue took it (`pushed`), the slot is posted for `kind` and
    /// owned by the kernel; when it was full, nothing changes and the error
    /// names the request, the slot and the queue's `sq_capacity`.
    pub fn record_push(&mut self, index: usize, kind: RequestKind, pushed: bool, sq_capacity: usize) -> (r: Result<(), AppError>)
        requires
            old(self).wf(),
            index < old(self).capacity(),
            !old(self).spec_slots()[index as int].outstanding,
            old(self).spec_debug() ==> old(self).spec_next_tag() < u64::MAX,
        ensures
            final(self).wf(),
            final(self).spec_debug() == old(self).spec_debug(),
            !pushed ==> final(self).spec_slots() == old(self).spec_slots()
                && final(self).spec_active_recv() == old(self).spec_active_recv()
                && final(self).spec_tags() == old(self).spec_tags()
                && final(self).spec_next_tag() == old(self).spec_next_tag(),
            !pushed ==> (r matches Err(AppError::IoUringFull(name, slot, cap)) && name@ == kind_name(
                kind,
            ) && slot == index && cap == sq_capacity),
            pushed ==> r is Ok,
            pushed ==> final(self).spec_slots() == old(self).spec_slots().update(
                index as int,
                Slot { state: in_progress(kind), outstanding: true },
            ),
            pushed ==> final(self).spec_active_recv() == old(self).spec_active_recv() + (if kind
                == RequestKind::Recv {
                1int
            } else {
                0int
            }),
            pushed && old(self).spec_debug() ==> final(self).spec_tags() == old(self).spec_tags().insert(
                old(self).spec_next_tag(),
                (index, kind),
            ) && final(self).spec_next_tag() == old(self).spec_next_tag() + 1,
            pushed && !old(self).spec_debug() ==> final(self).spec_tags() == old(self).spec_tags(),
    {
        if !pushed {
            return Err(AppError::IoUringFull(kind.name(), index, sq_capacity));
        }
        let new_slot = Slot { state: kind.state_in_progress(), outstanding: true };
        proof {
            lemma_count_recv_update(self.slots@, index as int, new_slot);
            lemma_count_recv_bounded(self.slots@.update(index as int, new_slot));
        }
        if self.debug {
            let tag = self.next_request_tag;
            let ghost old_tags = self.request_tags@;
            self.request_tags.insert(tag, (index, kind));
            self.next_request_tag = tag + 1;
            assert forall|t: u64| #[trigger] self.request_tags@.contains_key(t) && t != tag implies self.request_tags@[t].0 != index by {
                assert(old_tags.contains_key(t));
            }
        }
        self.slots[index] = new_slot;
        if kind == RequestKind::Recv {
            self.nb_active_recv = self.nb_active_recv + 1;
        }
        Ok(())
    }
}

impl SlotTable {
    /// Handles the completion of the submission that carried `user_data`, with
    /// the kernel's `result`, at time `now`.
    ///
    /// The slot goes back to the engine, keeping its state. A receive that
    /// brought `result > 0` bytes counts one received packet and asks for the
    /// bytes to be echoed; one that brought nothing asks for a new receive. A
    /// finished send counts one sent packet and asks for a new receive.
    ///
    /// A completion that no outstanding submission carried (an unknown tag, a
    /// tag already consumed, or the index of a slot the engine owns) is a stray
    /// completion: it fails with `UnknownCompletion`, changing nothing. It is
    /// left to the caller to stop on it.
    pub fn complete(&mut self, user_data: u64, result: i32, stats: &mut StatsAggregator, now: u64) -> (r: Result<NextSubmission, AppError>)
        requires
            old(self).wf(),
            old(stats).wf(),
        ensures
            final(self).wf(),
            final(stats).wf(),
            final(stats).same_config(old(stats)),
            final(self).spec_debug() == old(self).spec_debug(),
            final(self).spec_next_tag() == old(self).spec_next_tag(),
            old(self).slot_of(user_data) is None ==> r == Err::<NextSubmission, AppError>(
                AppError::UnknownCompletion(user_data),
            ) && final(self).spec_slots() == old(self).spec_slots() && final(self).spec_tags()
                == old(self).spec_tags() && final(self).spec_active_recv()
                == old(self).spec_active_recv() && final(stats)@ == old(stats)@,
            old(self).slot_of(user_data) matches Some(slot) ==> {
                let st = old(self).spec_slots()[slot as int].state;
                &&& final(self).spec_slots() == old(self).spec_slots().update(
                    slot as int,
                    Slot { state: st, outstanding: false },
                )
                &&& final(self).spec_tags() == old(self).spec_tags().remove(user_data)
                &&& final(self).spec_active_recv() == old(self).spec_active_recv() - (if st
                    == SlotState::RecvInProgress {
                    1int
                } else {
                    0int
                })
                &&& st == SlotState::RecvInProgress && result <= 0 ==> r == Ok::<
                    NextSubmission,
                    AppError,
                >(NextSubmission::Repost { slot }) && final(stats)@ == old(stats)@
                &&& st == SlotState::RecvInProgress && result > 0 ==> r == Ok::<
                    NextSubmission,
                    AppError,
                >(NextSubmission::Echo { slot, len: result as usize }) && final(stats)@ == old(
                    stats,
                ).after_access(now, one_rx())
                &&& st == SlotState::SendInProgress ==> r == Ok::<NextSubmission, AppError>(
                    NextSubmission::Recycle { slot },
                ) && final(stats)@ == old(stats).after_access(now, one_tx())
            },
    {
        let slot: usize;
        if self.debug {
            let ghost old_tags = self.request_tags@;
            match self.request_tags.remove(&user_data) {
                Some((index, _kind)) => {
                    slot = index;
                    assert forall|t: u64| #[trigger] self.request_tags@.contains_key(t) implies self.request_tags@[t].0 != slot by {
                        assert(old_tags.contains_key(t));
                        assert(old_tags.contains_key(user_data));
                    }
                },
                None => {
                    return Err(AppError::UnknownCompletion(user_data));
                },
            }
        } else {
            if user_data >= self.slots.len() as u64 {
                return Err(AppError::UnknownCompletion(user_data));
            }
            if !self.slots[user_data as usize].outstanding {
                return Err(AppError::UnknownCompletion(user_data));
            }
            slot = user_data as usize;
            assert(self.request_tags@.remove(user_data) =~= self.request_tags@);
        }
        let st = self.slots[slot].state;
        let freed = Slot { state: st, outstanding: false };
        proof {
            lemma_count_recv_update(self.slots@, slot as int, freed);
        }
        self.slots[slot] = freed;
        match st {
            SlotState::RecvInProgress => {
                self.nb_active_recv = self.nb_active_recv - 1;
                if result <= 0 {
                    Ok(NextSubmission::Repost { slot })
                } else {
                    let d = Stats { tx_packets: 0, rx_packets: 1, rx_packets_sent_here: 0, total_latency_sent_here: 0 };
                    stats.access_step(now, &d);
                    Ok(NextSubmission::Echo { slot, len: result as usize })
                }
            },
            SlotState::SendInProgress => {
                let d = Stats { tx_packets: 1, rx_packets: 0, rx_packets_sent_here: 0, total_latency_sent_here: 0 };
                stats.access_step(now, &d);
                Ok(NextSubmission::Recycle { slot })
            },
        }
    }

    /// At most one submission is outstanding for any slot: with tags, no two
    /// recorded tags name the same slot, and each names an outstanding slot
    /// posted for its kind; without them, the user data is the slot index, and
    /// a slot is named only while its submission is outstanding. The receives
    /// in flight are the outstanding slots in `RecvInProgress`, and there are at
    /// most as many as slots.
    pub proof fn lemma_one_submission_per_slot(&self)
        requires
            self.wf(),
        ensures
            self.spec_debug() ==> forall|t1: u64, t2: u64|
                #[trigger] self.slot_of(t1) is Some && #[trigger] self.slot_of(t2) is Some
                    && self.slot_of(t1) == self.slot_of(t2) ==> t1 == t2,
            forall|t: u64|
                #[trigger] self.slot_of(t) is Some ==> self.slot_of(t)->0 < self.capacity()
                    && self.spec_slots()[self.slot_of(t)->0 as int].outstanding,
            !self.spec_debug() ==> forall|t: u64|
                #[trigger] self.slot_of(t) is Some ==> self.slot_of(t)->0 == t,
            self.spec_active_recv() == count_recv(self.spec_slots()),
            self.spec_active_recv() <= self.capacity(),
    {
        lemma_count_recv_bounded(self.spec_slots());
        assert forall|t: u64| #[trigger] self.slot_of(t) is Some implies self.slot_of(t)->0
            < self.capacity() && self.spec_slots()[self.slot_of(t)->0 as int].outstanding by {
            if self.spec_debug() {
                assert(self.spec_tags().contains_key(t));
            }
        }
    }
}

/// Tracks how long a ring has had too few receives in flight, to warn once a
/// second after it has lasted five seconds.
pub struct RecvStarvationMonitor {
    /// Time, in milliseconds, from which the shortage is measured.
    last_recv_report: u64,
}

/// Milliseconds that a shortage lasts before the first warning.
pub const STARVATION_GRACE_MS: u64 = 5000;

/// Milliseconds between two warnings.
pub const STARVATION_REPORT_INTERVAL_MS: u64 = 1000;

impl RecvStarvationMonitor {
    pub closed spec fn spec_last_report(&self) -> u64 {
        self.last_recv_report
    }

    /// A monitor that measures from `now_ms`.
    pub fn new(now_ms: u64) -> (r: Self)
        ensures
            r.spec_last_report() == now_ms,
    {
        RecvStarvationMonitor { last_recv_report: now_ms }
    }

    /// Looks at a ring with `nb_active_recv` receives in flight out of the
    /// `nb_recv` posted at start, at time `now_ms`. The ring is short when more
    /// than two are missing. Returns whether to warn: when the shortage has
    /// lasted more than five seconds, after which the next warning comes a
    /// second later. A ring that is not short restarts the measure.
    pub fn check(&mut self, nb_active_recv: usize, nb_recv: usize, now_ms: u64) -> (warn: bool)
        ensures
            nb_active_recv + 2 >= nb_recv ==> !warn && final(self).spec_last_report() == now_ms,
            nb_active_recv + 2 < nb_recv ==> {
                let late = now_ms > old(self).spec_last_report() + STARVATION_GRACE_MS;
                &&& warn == late
                &&& late ==> final(self).spec_last_report() == old(self).spec_last_report()
                    + STARVATION_REPORT_INTERVAL_MS
                &&& !late ==> final(self).spec_last_report() == old(self).spec_last_report()
            },
    {
        if (nb_active_recv as u128) + 2 < nb_recv as u128 {
            if now_ms > self.last_recv_report && now_ms - self.last_recv_report > STARVATION_GRACE_MS {
                self.last_recv_report = self.last_recv_report + STARVATION_REPORT_INTERVAL_MS;
                true
            } else {
                false
            }
        } else {
            self.last_recv_report = now_ms;
            false
        }
    }
}
} // verus!
