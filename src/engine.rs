//! Decisions of the syscall send/receive engine: what a transmitter writes
//! into its batch buffer, and what a receiver counts for a datagram.
//!
//! The sockets, the threads and the system calls stay with the caller, which
//! hands over the bytes and the times it observed.

use vstd::prelude::*;

use crate::errors::AppError;
use crate::pkt::{header_bytes, header_of, parse_packet, write_header_at, PacketHeader, PACKET_HEAD_SIZE};
use crate::stats::{
    lemma_step_of_bounded, one_rx, one_sent_here, n_tx, sent_here_within_tx, step_of, wrap_add, zero_stats,
    Stats, StatsAggregator, WindowModel,
};

verus! {

/// What a receiver made of a datagram.
#[derive(Debug, Clone, Copy, PartialEq, Eq, Structural)]
pub enum RecvOutcome {
    /// The packet was counted; its header is given.
    Counted(PacketHeader),
    /// The datagram did not have the configured packet size.
    WrongSize,
    /// The datagram was too short to carry a header.
    Malformed,
    /// The header's send time lies after the receive time.
    SentAfterReceipt,
}

/// `(i * size + r) % size == r` for `r < size`, and the batch slot bounds.
proof fn lemma_slot_offset(i: int, size: int, r: int)
    requires
        0 <= i,
        0 <= r < size,
    ensures
        (i * size + r) % size == r,
        (i * size + r) / size == i,
{
    assert((i * size + r) % size == r && (i * size + r) / size == i) by (nonlinear_arith)
        requires
            0 <= i,
            0 <= r < size,
    ;
}

/// Fills the headers of a batch of `batch_size` packets of `packet_size`
/// bytes laid end to end in `buf`: packet `i` gets index `first_index + i`
/// (wrapping like the shared counter) and send time `time`. The payloads are
/// left as they were.
pub fn fill_batch(seed: u64, first_index: u64, time: u64, packet_size: usize, batch_size: usize, buf: &mut [u8])
    requires
        packet_size >= PACKET_HEAD_SIZE,
        old(buf)@.len() == packet_size * batch_size,
    ensures
        final(buf)@.len() == old(buf)@.len(),
        forall|i: int|
            0 <= i < batch_size ==> #[trigger] final(buf)@.subrange(
                i * packet_size,
                i * packet_size + PACKET_HEAD_SIZE,
            ) == header_bytes(wrap_add(first_index, i as u64), time),
        forall|k: int|
            0 <= k < old(buf)@.len() && k % (packet_size as int) >= PACKET_HEAD_SIZE
                ==> #[trigger] final(buf)@[k] == old(buf)@[k],
{
    let ghost b0 = buf@;
    let len = buf.len();
    let ps = packet_size;
    let mut i: usize = 0;
    let mut off: usize = 0;
    let mut index: u64 = first_index;
    while i < batch_size
        invariant
            ps == packet_size,
            ps >= PACKET_HEAD_SIZE,
            b0.len() == ps * batch_size,
            buf@.len() == b0.len(),
            len == b0.len(),
            i <= batch_size,
            off == i * ps,
            index == wrap_add(first_index, i as u64),
            forall|j: int|
                0 <= j < i ==> #[trigger] buf@.subrange(j * ps, j * ps + PACKET_HEAD_SIZE)
                    == header_bytes(wrap_add(first_index, j as u64), time),
            forall|k: int|
                0 <= k < b0.len() && (k >= off || k % (ps as int) >= PACKET_HEAD_SIZE)
                    ==> #[trigger] buf@[k] == b0[k],
        decreases batch_size - i,
    {
        assert(off + ps <= ps * batch_size && off + ps == (i + 1) * ps) by (nonlinear_arith)
            requires
                off == i * ps,
                i < batch_size,
        ;
        let ghost before = buf@;
        write_header_at(buf, off, index, time);
        assert forall|j: int| 0 <= j < i + 1 implies #[trigger] buf@.subrange(
            j * ps,
            j * ps + PACKET_HEAD_SIZE,
        ) == header_bytes(wrap_add(first_index, j as u64), time) by {
            if j < i {
                assert(j * ps + ps <= i * ps) by (nonlinear_arith)
                    requires
                        j < i,
                        ps >= 0,
                ;
                assert(buf@.subrange(j * ps, j * ps + PACKET_HEAD_SIZE) =~= before.subrange(
                    j * ps,
                    j * ps + PACKET_HEAD_SIZE,
                ));
            }
        }
        assert forall|k: int|
            0 <= k < b0.len() && (k >= off + ps || k % (ps as int) >= PACKET_HEAD_SIZE) implies #[trigger] buf@[k] == b0[k] by {
            if off <= k < off + PACKET_HEAD_SIZE {
                lemma_slot_offset(i as int, ps as int, k - off);
            }
        }
        index = index.wrapping_add(1);
        off = off + ps;
        i = i + 1;
    }
}

/// Counts `count` packets sent at `time`.
pub fn record_sent(stats: &mut StatsAggregator, time: u64, count: u64) -> (accepted: bool)
    requires
        old(stats).wf(),
    ensures
        final(stats).wf(),
        final(stats).same_config(old(stats)),
        accepted == old(stats).accepts(time),
        final(stats)@ == old(stats).after_access(time, n_tx(count)),
{
    let d = Stats { tx_packets: count, rx_packets: 0, rx_packets_sent_here: 0, total_latency_sent_here: 0 };
    stats.access_step(time, &d)
}

/// Counts the outcome of sending `count` packets at `time`, and says whether
/// the transmitter goes on. Packets the kernel took are counted. A packet too
/// large for the kernel stops the transmitter; any other failure counts
/// nothing and the transmitter goes on.
pub fn record_send_result(stats: &mut StatsAggregator, time: u64, count: u64, sent: &Result<(), AppError>) -> (keep_going: bool)
    requires
        old(stats).wf(),
    ensures
        final(stats).wf(),
        final(stats).same_config(old(stats)),
        sent is Ok ==> keep_going && final(stats)@ == old(stats).after_access(time, n_tx(count)),
        sent is Err ==> final(stats)@ == old(stats)@,
        sent is Err ==> (keep_going <==> !(sent matches Err(AppError::PacketSizeTooLarge))),
{
    match sent {
        Ok(()) => {
            record_sent(stats, time, count);
            true
        },
        Err(AppError::PacketSizeTooLarge) => false,
        Err(_) => true,
    }
}

/// Handles a datagram of `recv_size` bytes received at `recv_time` into `buf`.
///
/// It is discarded when its size is not `packet_size`, when it is too short
/// for a header, or when its send time lies after `recv_time`. Otherwise one
/// received packet is counted in the step of `recv_time`, and in the step of
/// its send time one packet sent there and received, with its latency.
pub fn record_received(
    stats: &mut StatsAggregator,
    seed: u64,
    packet_size: usize,
    buf: &[u8],
    recv_size: usize,
    recv_time: u64,
) -> (r: RecvOutcome)
    requires
        old(stats).wf(),
        buf@.len() >= packet_size,
    ensures
        final(stats).wf(),
        final(stats).same_config(old(stats)),
        recv_size != packet_size ==> r == RecvOutcome::WrongSize && final(stats)@ == old(stats)@,
        recv_size == packet_size && packet_size < PACKET_HEAD_SIZE ==> r == RecvOutcome::Malformed
            && final(stats)@ == old(stats)@,
        recv_size == packet_size && packet_size >= PACKET_HEAD_SIZE ==> {
            let h = header_of(buf@);
            &&& h.send_time > recv_time ==> r == RecvOutcome::SentAfterReceipt && final(stats)@ == old(
                stats,
            )@
            &&& h.send_time <= recv_time ==> r == RecvOutcome::Counted(h) && final(stats)@ == old(
                stats,
            ).access_in(
                old(stats).access_in(old(stats)@, recv_time, one_rx()),
                h.send_time,
                one_sent_here((recv_time - h.send_time) as u64),
            )
        },
{
    if recv_size != packet_size {
        return RecvOutcome::WrongSize;
    }
    let pkt = &buf[0..recv_size];
    match parse_packet(seed, pkt) {
        Ok(h) => {
            assert(header_of(pkt@) == header_of(buf@));
            if h.send_time > recv_time {
                return RecvOutcome::SentAfterReceipt;
            }
            let rx = Stats { tx_packets: 0, rx_packets: 1, rx_packets_sent_here: 0, total_latency_sent_here: 0 };
            stats.access_step(recv_time, &rx);
            let sent = Stats {
                tx_packets: 0,
                rx_packets: 0,
                rx_packets_sent_here: 1,
                total_latency_sent_here: recv_time - h.send_time,
            };
            stats.access_step(h.send_time, &sent);
            RecvOutcome::Counted(h)
        },
        Err(_) => RecvOutcome::Malformed,
    }
}

/// Counts a datagram echoed at `recv_time`: one received packet, and one sent
/// packet when the echo was sent.
pub fn record_echo(stats: &mut StatsAggregator, recv_time: u64, sent: bool) -> (accepted: bool)
    requires
        old(stats).wf(),
    ensures
        final(stats).wf(),
        final(stats).same_config(old(stats)),
        accepted == old(stats).accepts(recv_time),
        final(stats)@ == old(stats).after_access(
            recv_time,
            Stats {
                tx_packets: if sent { 1 } else { 0 },
                rx_packets: 1,
                rx_packets_sent_here: 0,
                total_latency_sent_here: 0,
            },
        ),
{
    let d = Stats {
        tx_packets: if sent { 1 } else { 0 },
        rx_packets: 1,
        rx_packets_sent_here: 0,
        total_latency_sent_here: 0,
    };
    stats.access_step(recv_time, &d)
}

/// The error for a failed send: a datagram the kernel finds too large is
/// `PacketSizeTooLarge`, any other failure names the call.
pub fn send_error(call: &'static str, too_large: bool, os_error: std::io::Error) -> (r: AppError)
    ensures
        too_large ==> r is PacketSizeTooLarge,
        !too_large ==> (r matches AppError::IOError(c, _) && c == call),
{
    if too_large {
        AppError::PacketSizeTooLarge
    } else {
        AppError::IOError(call, os_error)
    }
}


/// An event of a send/receive run, as the engines count it.
pub enum PacketEvent {
    /// `count` packets sent at `time`.
    Sent { time: u64, count: u64 },
    /// A packet sent at `send_time` was received at `recv_time`.
    Received { send_time: u64, recv_time: u64 },
}

/// What the window `w` becomes when the event is counted, as `record_sent`
/// and `record_received` count it.
pub open spec fn apply_event(agg: &StatsAggregator, w: WindowModel, e: PacketEvent) -> WindowModel {
    match e {
        PacketEvent::Sent { time, count } => agg.access_in(w, time, n_tx(count)),
        PacketEvent::Received { send_time, recv_time } => if send_time <= recv_time {
            agg.access_in(
                agg.access_in(w, recv_time, one_rx()),
                send_time,
                one_sent_here((recv_time - send_time) as u64),
            )
        } else {
            w
        },
    }
}

/// What the window `w` becomes when the events are counted in order.
pub open spec fn apply_events(agg: &StatsAggregator, w: WindowModel, es: Seq<PacketEvent>) -> WindowModel
    decreases es.len(),
{
    if es.len() == 0 {
        w
    } else {
        apply_event(agg, apply_events(agg, w, es.drop_last()), es.last())
    }
}

/// Number of packets that the events send in step `s`.
pub open spec fn sent_in_step(es: Seq<PacketEvent>, s: int, step_size: u64) -> int
    decreases es.len(),
{
    if es.len() == 0 {
        0
    } else {
        sent_in_step(es.drop_last(), s, step_size) + match es.last() {
            PacketEvent::Sent { time, count } => if step_of(time, step_size) == s {
                count as int
            } else {
                0
            },
            PacketEvent::Received { .. } => 0,
        }
    }
}

/// Number of packets sent in step `s` that the events receive.
pub open spec fn received_from_step(es: Seq<PacketEvent>, s: int, step_size: u64) -> int
    decreases es.len(),
{
    if es.len() == 0 {
        0
    } else {
        received_from_step(es.drop_last(), s, step_size) + match es.last() {
            PacketEvent::Received { send_time, recv_time } => if send_time <= recv_time && step_of(
                send_time,
                step_size,
            ) == s {
                1int
            } else {
                0int
            },
            PacketEvent::Sent { .. } => 0,
        }
    }
}

/// The counters of a step agree with the events for that step.
pub open spec fn step_counts_agree(st: Stats, es: Seq<PacketEvent>, s: int, step_size: u64) -> bool {
    &&& st.tx_packets == sent_in_step(es, s, step_size)
    &&& st.rx_packets_sent_here == received_from_step(es, s, step_size)
}

/// No event concerns step `s`.
pub open spec fn no_events_for(es: Seq<PacketEvent>, s: int, step_size: u64) -> bool {
    &&& sent_in_step(es, s, step_size) == 0
    &&& received_from_step(es, s, step_size) == 0
}

/// The window holds, for each of its steps, the counts of the events, and no
/// event concerns a step past it.
pub open spec fn counts_agree(agg: &StatsAggregator, w: WindowModel, es: Seq<PacketEvent>) -> bool {
    &&& agg.window_ok(w)
    &&& forall|s: int|
        w.first <= s < w.end() ==> step_counts_agree(
            #[trigger] w.step_at(s)->0,
            es,
            s,
            agg.spec_step_size(),
        )
    &&& forall|s: int| s >= w.end() ==> #[trigger] no_events_for(es, s, agg.spec_step_size())
}

proof fn lemma_sent_nonneg(es: Seq<PacketEvent>, s: int, step_size: u64)
    ensures
        sent_in_step(es, s, step_size) >= 0,
        received_from_step(es, s, step_size) >= 0,
    decreases es.len(),
{
    if es.len() > 0 {
        lemma_sent_nonneg(es.drop_last(), s, step_size);
    }
}

/// One access keeps the counters in agreement with events that add `d` to
/// step `t` and nothing elsewhere.
proof fn lemma_access_keeps_agreement(
    agg: &StatsAggregator,
    w: WindowModel,
    es: Seq<PacketEvent>,
    es2: Seq<PacketEvent>,
    time: u64,
    d: Stats,
)
    requires
        agg.wf(),
        counts_agree(agg, w, es),
        forall|s: int|
            s != step_of(time, agg.spec_step_size()) ==> sent_in_step(es2, s, agg.spec_step_size())
                == sent_in_step(es, s, agg.spec_step_size()) && received_from_step(
                es2,
                s,
                agg.spec_step_size(),
            ) == received_from_step(es, s, agg.spec_step_size()),
        sent_in_step(es2, step_of(time, agg.spec_step_size()), agg.spec_step_size()) == sent_in_step(
            es,
            step_of(time, agg.spec_step_size()),
            agg.spec_step_size(),
        ) + d.tx_packets,
        received_from_step(es2, step_of(time, agg.spec_step_size()), agg.spec_step_size())
            == received_from_step(es, step_of(time, agg.spec_step_size()), agg.spec_step_size())
            + d.rx_packets_sent_here,
        sent_in_step(es2, step_of(time, agg.spec_step_size()), agg.spec_step_size()) <= u64::MAX,
        received_from_step(es2, step_of(time, agg.spec_step_size()), agg.spec_step_size())
            <= u64::MAX,
    ensures
        counts_agree(agg, agg.access_in(w, time, d), es2),
{
    let ss = agg.spec_step_size();
    let t = step_of(time, ss);
    lemma_step_of_bounded(time, ss);
    let a = agg.access_in(w, time, d);
    if t < w.first {
        assert forall|s: int| w.first <= s < w.end() implies step_counts_agree(
            #[trigger] a.step_at(s)->0,
            es2,
            s,
            ss,
        ) by {
            assert(step_counts_agree(w.step_at(s)->0, es, s, ss));
        }
        assert forall|s: int| s >= a.end() implies #[trigger] no_events_for(es2, s, ss) by {
            assert(no_events_for(es, s, ss));
        }
    } else {
        agg.lemma_reaching_in(w, t);
        let r = agg.reaching_in(w, t);
        assert forall|s: int| a.first <= s < a.end() implies step_counts_agree(
            #[trigger] a.step_at(s)->0,
            es2,
            s,
            ss,
        ) by {
            assert(r.step_at(s) is Some);
            if s < w.end() {
                assert(w.step_at(s) is Some);
                assert(step_counts_agree(w.step_at(s)->0, es, s, ss));
            } else {
                assert(no_events_for(es, s, ss));
            }
        }
        assert forall|s: int| s >= a.end() implies #[trigger] no_events_for(es2, s, ss) by {
            assert(no_events_for(es, s, ss));
        }
    }
}

/// Counting one event keeps the counters in agreement with the events.
proof fn lemma_event_keeps_agreement(
    agg: &StatsAggregator,
    w: WindowModel,
    es: Seq<PacketEvent>,
    e: PacketEvent,
)
    requires
        agg.wf(),
        counts_agree(agg, w, es),
        forall|s: int| sent_in_step(es.push(e), s, agg.spec_step_size()) <= u64::MAX,
        forall|s: int|
            received_from_step(es.push(e), s, agg.spec_step_size()) <= sent_in_step(
                es.push(e),
                s,
                agg.spec_step_size(),
            ),
    ensures
        counts_agree(agg, apply_event(agg, w, e), es.push(e)),
{
    let ss = agg.spec_step_size();
    let es2 = es.push(e);
    assert(es2.drop_last() =~= es);
    match e {
        PacketEvent::Sent { time, count } => {
            lemma_access_keeps_agreement(agg, w, es, es2, time, n_tx(count));
        },
        PacketEvent::Received { send_time, recv_time } => {
            if send_time <= recv_time {
                let mid = agg.access_in(w, recv_time, one_rx());
                let tr = step_of(recv_time, ss);
                assert(sent_in_step(es2, tr, ss) == sent_in_step(es, tr, ss));
                assert(received_from_step(es, tr, ss) <= received_from_step(es2, tr, ss));
                lemma_access_keeps_agreement(agg, w, es, es, recv_time, one_rx());
                lemma_sent_nonneg(es2, step_of(send_time, ss), ss);
                lemma_access_keeps_agreement(
                    agg,
                    mid,
                    es,
                    es2,
                    send_time,
                    one_sent_here((recv_time - send_time) as u64),
                );
            } else {
                assert forall|s: int| w.first <= s < w.end() implies step_counts_agree(
                    #[trigger] w.step_at(s)->0,
                    es2,
                    s,
                    ss,
                ) by {
                    assert(step_counts_agree(w.step_at(s)->0, es, s, ss));
                }
                assert forall|s: int| s >= w.end() implies #[trigger] no_events_for(es2, s, ss) by {
                    assert(no_events_for(es, s, ss));
                }
            }
        },
    }
}

/// Counting the events in order keeps the counters in agreement with them.
proof fn lemma_events_keep_agreement(agg: &StatsAggregator, w: WindowModel, es: Seq<PacketEvent>)
    requires
        agg.wf(),
        counts_agree(agg, w, Seq::empty()),
        forall|s: int| sent_in_step(es, s, agg.spec_step_size()) <= u64::MAX,
        forall|k: int, s: int|
            0 <= k <= es.len() ==> #[trigger] received_from_step(
                es.take(k),
                s,
                agg.spec_step_size(),
            ) <= sent_in_step(es.take(k), s, agg.spec_step_size()),
    ensures
        counts_agree(agg, apply_events(agg, w, es), es),
    decreases es.len(),
{
    let ss = agg.spec_step_size();
    if es.len() == 0 {
        assert(es =~= Seq::<PacketEvent>::empty());
    } else {
        let prefix = es.drop_last();
        assert forall|s: int| sent_in_step(prefix, s, ss) <= u64::MAX by {
            lemma_sent_nonneg(es, s, ss);
            assert(sent_in_step(prefix, s, ss) <= sent_in_step(es, s, ss));
        }
        assert forall|k: int, s: int| 0 <= k <= prefix.len() implies #[trigger] received_from_step(
            prefix.take(k),
            s,
            ss,
        ) <= sent_in_step(prefix.take(k), s, ss) by {
            assert(prefix.take(k) =~= es.take(k));
        }
        lemma_events_keep_agreement(agg, w, prefix);
        assert(prefix.push(es.last()) =~= es);
        assert(es.take(es.len() as int) =~= es);
        assert forall|s: int| received_from_step(es, s, ss) <= sent_in_step(es, s, ss) by {
            assert(received_from_step(es.take(es.len() as int), s, ss) <= sent_in_step(
                es.take(es.len() as int),
                s,
                ss,
            ));
        }
        lemma_event_keeps_agreement(agg, apply_events(agg, w, prefix), prefix, es.last());
    }
}

/// From an empty window, each step never counts more packets received for
/// having been sent in it than were counted as sent in it, whatever the events
/// counted with `record_sent` and `record_received`, as long as at every point
/// no more packets of a step were received than sent, and no step counts more
/// than `u64::MAX` packets sent.
pub proof fn lemma_sent_here_within_tx(agg: &StatsAggregator, es: Seq<PacketEvent>)
    requires
        agg.wf(),
        agg@.steps.len() == 0,
        forall|s: int| sent_in_step(es, s, agg.spec_step_size()) <= u64::MAX,
        forall|k: int, s: int|
            0 <= k <= es.len() ==> #[trigger] received_from_step(
                es.take(k),
                s,
                agg.spec_step_size(),
            ) <= sent_in_step(es.take(k), s, agg.spec_step_size()),
    ensures
        forall|k: int|
            0 <= k < apply_events(agg, agg@, es).steps.len() ==> sent_here_within_tx(
                #[trigger] apply_events(agg, agg@, es).steps[k],
            ),
{
    let ss = agg.spec_step_size();
    assert forall|s: int| s >= agg@.end() implies #[trigger] no_events_for(
        Seq::<PacketEvent>::empty(),
        s,
        ss,
    ) by {}
    lemma_events_keep_agreement(agg, agg@, es);
    let w = apply_events(agg, agg@, es);
    assert(es.take(es.len() as int) =~= es);
    assert forall|k: int| 0 <= k < w.steps.len() implies sent_here_within_tx(
        #[trigger] w.steps[k],
    ) by {
        let s = w.first + k;
        assert(w.step_at(s) is Some);
        assert(step_counts_agree(w.step_at(s)->0, es, s, ss));
        assert(received_from_step(es.take(es.len() as int), s, ss) <= sent_in_step(
            es.take(es.len() as int),
            s,
            ss,
        ));
    }
}

/// Every send among the events is a batch of `batch_size` packets.
pub open spec fn sends_in_batches(es: Seq<PacketEvent>, batch_size: u64) -> bool {
    forall|i: int|
        0 <= i < es.len() ==> (#[trigger] es[i] matches PacketEvent::Sent { count, .. } ==> count
            == batch_size)
}

proof fn lemma_sent_in_step_multiple(es: Seq<PacketEvent>, s: int, step_size: u64, batch_size: u64)
    requires
        batch_size > 0,
        sends_in_batches(es, batch_size),
    ensures
        sent_in_step(es, s, step_size) % (batch_size as int) == 0,
        sent_in_step(es, s, step_size) >= 0,
    decreases es.len(),
{
    if es.len() > 0 {
        let p = es.drop_last();
        assert(sends_in_batches(p, batch_size)) by {
            assert forall|i: int| 0 <= i < p.len() implies (#[trigger] p[i] matches PacketEvent::Sent {
                count,
                ..
            } ==> count == batch_size) by {
                assert(p[i] == es[i]);
            }
        }
        lemma_sent_in_step_multiple(p, s, step_size, batch_size);
        assert(es[es.len() - 1] == es.last());
        let a = sent_in_step(p, s, step_size);
        let b = batch_size as int;
        assert((a + b) % b == 0) by (nonlinear_arith)
            requires
                a % b == 0,
                b > 0,
                a >= 0,
        ;
    }
}

/// When every send is a batch of `batch_size` packets, as `record_sent` counts
/// a `sendmmsg` batch, each step of the window counts a multiple of
/// `batch_size` packets sent. The events start from an empty window and obey
/// the same conditions as for `lemma_sent_here_within_tx`.
pub proof fn lemma_batched_tx_multiple(agg: &StatsAggregator, es: Seq<PacketEvent>, batch_size: u64)
    requires
        agg.wf(),
        agg@.steps.len() == 0,
        batch_size > 0,
        sends_in_batches(es, batch_size),
        forall|s: int| sent_in_step(es, s, agg.spec_step_size()) <= u64::MAX,
        forall|k: int, s: int|
            0 <= k <= es.len() ==> #[trigger] received_from_step(
                es.take(k),
                s,
                agg.spec_step_size(),
            ) <= sent_in_step(es.take(k), s, agg.spec_step_size()),
    ensures
        forall|k: int|
            0 <= k < apply_events(agg, agg@, es).steps.len() ==> (
            #[trigger] apply_events(agg, agg@, es).steps[k]).tx_packets % batch_size == 0,
{
    let ss = agg.spec_step_size();
    assert forall|s: int| s >= agg@.end() implies #[trigger] no_events_for(
        Seq::<PacketEvent>::empty(),
        s,
        ss,
    ) by {}
    lemma_events_keep_agreement(agg, agg@, es);
    let w = apply_events(agg, agg@, es);
    assert forall|k: int| 0 <= k < w.steps.len() implies (#[trigger] w.steps[k]).tx_packets
        % batch_size == 0 by {
        let s = w.first + k;
        assert(w.step_at(s) is Some);
        assert(step_counts_agree(w.step_at(s)->0, es, s, ss));
        lemma_sent_in_step_multiple(es, s, ss, batch_size);
    }
}
} // verus!
