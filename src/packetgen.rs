//! A packet generator for integrity checks: payloads come from a cycle of
//! pseudo-random packets that both ends derive from the same seed, so a
//! receiver can check every byte after the header. The receiver also keeps a
//! short histogram of packets by send time, in steps of `TIME_STEP_MILLIS`.
//!
//! Rows `(start_ms, end_ms, count)` of packets sent, or received, per step are
//! kept for the caller to write out.

use vstd::prelude::*;

use rand::{RngCore, SeedableRng};

use crate::pkt::{header_bytes, header_of, parse_packet, write_header_at, PACKET_HEAD_SIZE};
use crate::stats::wrap_add;

verus! {

/// Number of distinct payloads before they repeat.
pub const PACKET_CYCLE: u64 = 1024000;

/// Width of a step of the packet counts, in milliseconds.
pub const TIME_STEP_MILLIS: u64 = 10;

/// Number of steps that the receiver's histogram holds.
pub const RECV_MAX_BACKLOG: usize = 100;

/// Relies on rand's `SmallRng::seed_from_u64` and `RngCore::fill_bytes`: the
/// whole buffer is overwritten with bytes drawn from a generator seeded with
/// `seed`; its length does not change.
#[verifier::external_body]
fn fill_pseudo_random(seed: u64, buf: &mut Vec<u8>)
    ensures
        final(buf)@.len() == old(buf)@.len(),
{
    let mut rng = rand::rngs::SmallRng::seed_from_u64(seed);
    rng.fill_bytes(buf.as_mut_slice());
}

/// `a - b` modulo 2^64.
pub open spec fn wrap_sub(a: u64, b: u64) -> u64 {
    if a >= b {
        (a - b) as u64
    } else {
        (a - b + 0x1_0000_0000_0000_0000) as u64
    }
}

/// A row of packet counts: the step's start and end, in milliseconds, and the count.
pub type CountRow = (u64, u64, u64);

/// The histogram of received packets by send time.
pub struct RecvStats {
    backlog: Vec<u64>,
    backlog_start_millis: u64,
    record_rows: bool,
    rows: Vec<CountRow>,
}

/// What the histogram holds: its first step's start, the counts, and the rows
/// of evicted steps not taken yet.
pub struct BacklogModel {
    pub start: int,
    pub counts: Seq<u64>,
    pub rows: Seq<CountRow>,
}

impl View for RecvStats {
    type V = BacklogModel;

    closed spec fn view(&self) -> BacklogModel {
        BacklogModel {
            start: self.backlog_start_millis as int,
            counts: self.backlog@,
            rows: self.rows@,
        }
    }
}

impl RecvStats {
    pub closed spec fn spec_records_rows(&self) -> bool {
        self.record_rows
    }

    /// What the histogram becomes when a packet sent at `pkt_millis` arrives.
    ///
    /// Packets older than the histogram are ignored. One past its end first
    /// shifts it forward until its last step holds the packet; the steps shifted
    /// out, at most all of them, become rows.
    pub open spec fn after_recv(&self, pkt_millis: u64) -> BacklogModel {
        let m = self@;
        let len = m.counts.len() as int;
        let i = (pkt_millis - m.start) / TIME_STEP_MILLIS as int;
        if pkt_millis < m.start {
            m
        } else if i < len {
            BacklogModel {
                counts: m.counts.update(i, wrap_add(m.counts[i], 1)),
                ..m
            }
        } else {
            let need = i - len + 1;
            let out = if need < len {
                need
            } else {
                len
            };
            let shifted = m.counts.skip(out) + Seq::new(out as nat, |k: int| 0u64);
            BacklogModel {
                start: m.start + need * TIME_STEP_MILLIS,
                counts: shifted.update(len - 1, wrap_add(shifted[len - 1], 1)),
                rows: if self.spec_records_rows() {
                    m.rows + Seq::new(
                        out as nat,
                        |e: int|
                            (
                                (m.start + e * TIME_STEP_MILLIS) as u64,
                                (m.start + e * TIME_STEP_MILLIS + TIME_STEP_MILLIS) as u64,
                                m.counts[e],
                            ),
                    )
                } else {
                    m.rows
                },
            }
        }
    }

    /// A histogram of `max_backlog` empty steps starting at time 0, which keeps no rows.
    pub fn new(max_backlog: usize) -> (r: Self)
        ensures
            r@.start == 0,
            r@.counts == Seq::new(max_backlog as nat, |k: int| 0u64),
            r@.rows == Seq::<CountRow>::empty(),
            !r.spec_records_rows(),
    {
        RecvStats { backlog: vec![0u64; max_backlog], backlog_start_millis: 0, record_rows: false, rows: Vec::new() }
    }

    /// From now on, evicted steps are kept as rows.
    pub fn set_stats_file(&mut self)
        ensures
            final(self)@ == old(self)@,
            final(self).spec_records_rows(),
    {
        self.record_rows = true;
    }

    /// Keeps the row of an evicted step of `count` packets starting at `start_millis`.
    pub fn handle_evict(&mut self, start_millis: u64, count: u64)
        requires
            start_millis + TIME_STEP_MILLIS <= u64::MAX,
        ensures
            final(self).spec_records_rows() == old(self).spec_records_rows(),
            final(self)@.start == old(self)@.start,
            final(self)@.counts == old(self)@.counts,
            final(self)@.rows == if old(self).spec_records_rows() {
                old(self)@.rows.push((start_millis, (start_millis + TIME_STEP_MILLIS) as u64, count))
            } else {
                old(self)@.rows
            },
    {
        if self.record_rows {
            self.rows.push((start_millis, start_millis + TIME_STEP_MILLIS, count));
        }
    }

    /// Counts a packet sent at `pkt_millis`.
    pub fn recv(&mut self, pkt_millis: u64)
        requires
            old(self)@.counts.len() >= 1,
        ensures
            final(self)@ == old(self).after_recv(pkt_millis),
            final(self).spec_records_rows() == old(self).spec_records_rows(),
    {
        if pkt_millis < self.backlog_start_millis {
            return;
        }
        let start = self.backlog_start_millis;
        let i: u64 = (pkt_millis - start) / TIME_STEP_MILLIS;
        let len: usize = self.backlog.len();
        let bklen: u64 = len as u64;
        if i < bklen {
            let c = self.backlog[i as usize];
            self.backlog.set(i as usize, c.wrapping_add(1));
            return;
        }
        let need: u64 = i - bklen + 1;
        let out: u64 = if need < bklen {
            need
        } else {
            bklen
        };
        let ghost m = self@;
        let ghost rows0 = self.rows@;
        let ghost new_rows = Seq::new(
            out as nat,
            |e: int|
                (
                    (m.start + e * TIME_STEP_MILLIS) as u64,
                    (m.start + e * TIME_STEP_MILLIS + TIME_STEP_MILLIS) as u64,
                    m.counts[e],
                ),
        );
        assert(i * TIME_STEP_MILLIS <= pkt_millis - start) by (nonlinear_arith)
            requires
                i == (pkt_millis - start) / TIME_STEP_MILLIS as int,
                pkt_millis >= start,
        ;
        let mut e: u64 = 0;
        while e < out
            invariant
                e <= out,
                out <= bklen,
                out <= need,
                bklen == len,
                len == self.backlog@.len(),
                self.backlog@ == m.counts,
                self.backlog_start_millis == start,
                start == m.start,
                need == i - bklen + 1,
                i * TIME_STEP_MILLIS <= pkt_millis - start,
                self.record_rows == old(self).record_rows,
                self.record_rows ==> self.rows@ == rows0 + new_rows.subrange(0, e as int),
                !self.record_rows ==> self.rows@ == rows0,
                rows0 == m.rows,
                new_rows == Seq::new(
                    out as nat,
                    |e: int|
                        (
                            (m.start + e * TIME_STEP_MILLIS) as u64,
                            (m.start + e * TIME_STEP_MILLIS + TIME_STEP_MILLIS) as u64,
                            m.counts[e],
                        ),
                ),
            decreases out - e,
        {
            let c = self.backlog[e as usize];
            self.handle_evict(start + e * TIME_STEP_MILLIS, c);
            assert(self.rows@ =~= rows0 + new_rows.subrange(0, e + 1) || !self.record_rows);
            e = e + 1;
        }
        let mut shifted: Vec<u64> = Vec::new();
        let mut k: usize = out as usize;
        while k < len
            invariant
                out <= k <= len,
                len == self.backlog@.len(),
                self.backlog@ == m.counts,
                shifted@ == m.counts.subrange(out as int, k as int),
            decreases len - k,
        {
            shifted.push(self.backlog[k]);
            assert(shifted@ =~= m.counts.subrange(out as int, k + 1));
            k = k + 1;
        }
        while shifted.len() < len
            invariant
                shifted@.len() <= len,
                shifted@.len() >= len - out,
                shifted@ == m.counts.skip(out as int) + Seq::new((shifted@.len() - (len - out)) as nat, |k: int| 0u64),
            decreases len - shifted@.len(),
        {
            let ghost n = shifted@.len();
            shifted.push(0u64);
            assert(shifted@ =~= m.counts.skip(out as int) + Seq::new((n + 1 - (len - out)) as nat, |k: int| 0u64));
        }
        assert(shifted@ =~= m.counts.skip(out as int) + Seq::new(out as nat, |k: int| 0u64));
        let last = shifted[len - 1];
        shifted.set(len - 1, last.wrapping_add(1));
        self.backlog = shifted;
        self.backlog_start_millis = start + need * TIME_STEP_MILLIS;
        if self.record_rows {
            assert(self.rows@ =~= rows0 + new_rows);
        }
    }

    /// Hands over the rows not taken yet, oldest first.
    pub fn take_rows(&mut self) -> (r: Vec<CountRow>)
        ensures
            r@ == old(self)@.rows,
            final(self)@ == (BacklogModel { rows: Seq::empty(), ..old(self)@ }),
            final(self).spec_records_rows() == old(self).spec_records_rows(),
    {
        let r = self.rows.split_off(0);
        assert(self.rows@ =~= Seq::<CountRow>::empty());
        r
    }
}


/// Where the payload of packet `index` starts in the cycle buffer.
pub open spec fn cycle_offset(index: u64, packet_size: int) -> int {
    (index % PACKET_CYCLE) as int * packet_size
}

/// The payload cycle's bytes for packet `index`.
pub open spec fn cycle_slot(data: Seq<u8>, index: u64, packet_size: int) -> Seq<u8> {
    data.subrange(cycle_offset(index, packet_size), cycle_offset(index, packet_size) + packet_size)
}

proof fn lemma_cycle_slot_fits(index: u64, packet_size: int)
    requires
        packet_size >= 0,
    ensures
        0 <= cycle_offset(index, packet_size),
        cycle_offset(index, packet_size) + packet_size <= PACKET_CYCLE * packet_size,
{
    let r = (index % PACKET_CYCLE) as int;
    assert(0 <= r < PACKET_CYCLE);
    assert(0 <= r * packet_size && r * packet_size + packet_size <= PACKET_CYCLE * packet_size)
        by (nonlinear_arith)
        requires
            0 <= r < PACKET_CYCLE,
            packet_size >= 0,
    ;
}

/// Generates packets with payloads from the cycle, and checks received ones.
pub struct PacketGenerator {
    packet_size: usize,
    seed: u64,
    data_buf: Vec<u8>,
    i: u64,
    last_timestep_millis: u64,
    i_last_timestep: u64,
    recv_stats: RecvStats,
    record_rows: bool,
    rows: Vec<CountRow>,
}

impl PacketGenerator {
    pub closed spec fn spec_packet_size(&self) -> int {
        self.packet_size as int
    }

    /// The payload cycle.
    pub closed spec fn spec_data(&self) -> Seq<u8> {
        self.data_buf@
    }

    /// Index of the next packet.
    pub closed spec fn spec_next_index(&self) -> u64 {
        self.i
    }

    /// Start, in milliseconds, of the current step of sent packets.
    pub closed spec fn spec_last_step(&self) -> u64 {
        self.last_timestep_millis
    }

    /// Index of the first packet of the current step.
    pub closed spec fn spec_step_first_index(&self) -> u64 {
        self.i_last_timestep
    }

    pub closed spec fn spec_records_rows(&self) -> bool {
        self.record_rows
    }

    /// Rows of sent packets per step, not taken yet.
    pub closed spec fn spec_rows(&self) -> Seq<CountRow> {
        self.rows@
    }

    /// The receiver's histogram.
    pub closed spec fn spec_recv(&self) -> BacklogModel {
        self.recv_stats@
    }

    /// Whether the receiver's histogram keeps rows.
    pub closed spec fn spec_recv_records_rows(&self) -> bool {
        self.recv_stats.spec_records_rows()
    }

    /// The receiver's histogram after a packet sent at `millis` is counted.
    pub closed spec fn spec_recv_after(&self, millis: u64) -> BacklogModel {
        self.recv_stats.after_recv(millis)
    }

    /// The invariant: the cycle holds `PACKET_CYCLE` payloads of a packet each.
    pub open spec fn wf(&self) -> bool {
        &&& self.spec_packet_size() >= PACKET_HEAD_SIZE
        &&& self.spec_data().len() == PACKET_CYCLE * self.spec_packet_size()
        &&& self.spec_data().len() <= usize::MAX
        &&& self.spec_recv().counts.len() >= 1
    }

    /// A generator of packets of `packet_size` bytes whose payloads derive from
    /// `seed`, with its clock at `now_ms`. Rows of sent packets are kept when
    /// `is_send`; rows of received packets otherwise.
    pub fn init(packet_size: usize, seed: u64, is_send: bool, now_ms: u64) -> (r: Self)
        requires
            packet_size >= PACKET_HEAD_SIZE,
            PACKET_CYCLE * packet_size <= usize::MAX,
        ensures
            r.wf(),
            r.spec_packet_size() == packet_size,
            r.spec_data().len() == PACKET_CYCLE * packet_size,
            r.spec_next_index() == 0,
            r.spec_step_first_index() == 0,
            r.spec_last_step() == now_ms,
            r.spec_records_rows() == is_send,
            r.spec_rows() == Seq::<CountRow>::empty(),
            r.spec_recv().start == 0,
            r.spec_recv().counts == Seq::new(RECV_MAX_BACKLOG as nat, |k: int| 0u64),
            r.spec_recv().rows == Seq::<CountRow>::empty(),
            r.spec_recv_records_rows() == !is_send,
            packet_size == PACKET_HEAD_SIZE ==> r.spec_data() == Seq::new(
                (PACKET_CYCLE * packet_size) as nat,
                |k: int| 0u8,
            ),
    {
        let size: usize = PACKET_CYCLE as usize * packet_size;
        let mut data_buf = vec![0u8; size];
        assert(data_buf@ =~= Seq::new(size as nat, |k: int| 0u8));
        if packet_size > PACKET_HEAD_SIZE {
            fill_pseudo_random(seed, &mut data_buf);
        }
        let mut recv_stats = RecvStats::new(RECV_MAX_BACKLOG);
        if !is_send {
            recv_stats.set_stats_file();
        }
        PacketGenerator {
            packet_size,
            seed,
            data_buf,
            i: 0,
            last_timestep_millis: now_ms,
            i_last_timestep: 0,
            recv_stats,
            record_rows: is_send,
            rows: Vec::new(),
        }
    }

    /// Writes the next packet into `dest`: the cycle's payload for its index,
    /// under a header with its index and `now_ms`. When a step of
    /// `TIME_STEP_MILLIS` has passed, a row counts the packets sent since the
    /// step began, and a new step begins at `now_ms`.
    pub fn get_next_packet(&mut self, dest: &mut [u8], now_ms: u64)
        requires
            old(self).wf(),
            old(dest)@.len() == old(self).spec_packet_size(),
        ensures
            final(self).wf(),
            final(self).spec_packet_size() == old(self).spec_packet_size(),
            final(self).spec_data() == old(self).spec_data(),
            final(self).spec_recv() == old(self).spec_recv(),
            final(self).spec_records_rows() == old(self).spec_records_rows(),
            final(self).spec_recv_records_rows() == old(self).spec_recv_records_rows(),
            final(dest)@ == header_bytes(old(self).spec_next_index(), now_ms) + cycle_slot(
                old(self).spec_data(),
                old(self).spec_next_index(),
                old(self).spec_packet_size(),
            ).subrange(PACKET_HEAD_SIZE as int, old(self).spec_packet_size()),
            final(self).spec_next_index() == wrap_add(old(self).spec_next_index(), 1),
            now_ms >= old(self).spec_last_step() + TIME_STEP_MILLIS ==> {
                &&& final(self).spec_last_step() == now_ms
                &&& final(self).spec_step_first_index() == final(self).spec_next_index()
                &&& final(self).spec_rows() == if old(self).spec_records_rows() {
                    old(self).spec_rows().push(
                        (
                            old(self).spec_last_step(),
                            (old(self).spec_last_step() + TIME_STEP_MILLIS) as u64,
                            wrap_sub(final(self).spec_next_index(), old(self).spec_step_first_index()),
                        ),
                    )
                } else {
                    old(self).spec_rows()
                }
            },
            now_ms < old(self).spec_last_step() + TIME_STEP_MILLIS ==> {
                &&& final(self).spec_last_step() == old(self).spec_last_step()
                &&& final(self).spec_step_first_index() == old(self).spec_step_first_index()
                &&& final(self).spec_rows() == old(self).spec_rows()
            },
    {
        let ps = self.packet_size;
        let index = self.i;
        proof {
            lemma_cycle_slot_fits(index, ps as int);
        }
        assert(self.data_buf@.len() <= usize::MAX);
        let ptr: usize = (index % PACKET_CYCLE) as usize * ps;
        let ghost slot = cycle_slot(self.data_buf@, index, ps as int);
        let mut k: usize = 0;
        while k < ps
            invariant
                *self == *old(self),
                self.wf(),
                index == self.i,
                ps == self.packet_size,
                k <= ps,
                dest@.len() == ps,
                ptr + ps <= self.data_buf@.len(),
                slot == self.data_buf@.subrange(ptr as int, ptr + ps),
                forall|j: int| 0 <= j < k ==> #[trigger] dest@[j] == slot[j],
            decreases ps - k,
        {
            dest[k] = self.data_buf[ptr + k];
            k = k + 1;
        }
        let ghost copied = dest@;
        assert(copied =~= slot);
        write_header_at(dest, 0, index, now_ms);
        assert(dest@ =~= header_bytes(index, now_ms) + slot.subrange(PACKET_HEAD_SIZE as int, ps as int)) by {
            assert(dest@.subrange(0, PACKET_HEAD_SIZE as int) == header_bytes(index, now_ms));
            assert forall|j: int| PACKET_HEAD_SIZE <= j < ps implies dest@[j] == slot[j] by {
                assert(dest@[j] == copied[j]);
            }
            assert forall|j: int| 0 <= j < PACKET_HEAD_SIZE implies dest@[j] == header_bytes(index, now_ms)[j] by {
                assert(dest@[j] == dest@.subrange(0, PACKET_HEAD_SIZE as int)[j]);
            }
        }
        self.i = index.wrapping_add(1);
        let lt = self.last_timestep_millis;
        if now_ms >= lt && now_ms - lt >= TIME_STEP_MILLIS {
            let count = self.i.wrapping_sub(self.i_last_timestep);
            self.last_timestep_millis = now_ms;
            self.i_last_timestep = self.i;
            if self.record_rows {
                self.rows.push((lt, lt + TIME_STEP_MILLIS, count));
            }
        }
    }

    /// Checks a received packet: it must have the packet size and, after the
    /// header, the cycle's payload for the index in its header. A packet that
    /// passes is counted in the receiver's histogram at its send time.
    pub fn verify_recv_packet(&mut self, pkt: &[u8]) -> (ok: bool)
        requires
            old(self).wf(),
        ensures
            final(self).wf(),
            final(self).spec_packet_size() == old(self).spec_packet_size(),
            final(self).spec_data() == old(self).spec_data(),
            final(self).spec_next_index() == old(self).spec_next_index(),
            final(self).spec_rows() == old(self).spec_rows(),
            final(self).spec_last_step() == old(self).spec_last_step(),
            final(self).spec_step_first_index() == old(self).spec_step_first_index(),
            final(self).spec_records_rows() == old(self).spec_records_rows(),
            final(self).spec_recv_records_rows() == old(self).spec_recv_records_rows(),
            ok == (pkt@.len() == old(self).spec_packet_size() && pkt@.subrange(
                PACKET_HEAD_SIZE as int,
                pkt@.len() as int,
            ) == cycle_slot(
                old(self).spec_data(),
                header_of(pkt@).index,
                old(self).spec_packet_size(),
            ).subrange(PACKET_HEAD_SIZE as int, old(self).spec_packet_size())),
            ok ==> final(self).spec_recv() == old(self).spec_recv_after(header_of(pkt@).send_time),
            !ok ==> final(self).spec_recv() == old(self).spec_recv(),
    {
        let ps = self.packet_size;
        if pkt.len() != ps {
            return false;
        }
        let head = match parse_packet(self.seed, pkt) {
            Ok(h) => h,
            Err(_) => {
                return false;
            },
        };
        proof {
            lemma_cycle_slot_fits(head.index, ps as int);
        }
        let ptr: usize = (head.index % PACKET_CYCLE) as usize * ps;
        let ghost slot = cycle_slot(self.data_buf@, head.index, ps as int);
        let mut k: usize = PACKET_HEAD_SIZE;
        let mut same = true;
        while k < ps && same
            invariant
                self.wf(),
                ps == self.packet_size,
                PACKET_HEAD_SIZE <= k <= ps,
                pkt@.len() == ps,
                ptr + ps <= self.data_buf@.len(),
                slot == self.data_buf@.subrange(ptr as int, ptr + ps),
                forall|j: int| PACKET_HEAD_SIZE <= j < k ==> #[trigger] pkt@[j] == slot[j],
                !same ==> pkt@.subrange(PACKET_HEAD_SIZE as int, ps as int) != slot.subrange(
                    PACKET_HEAD_SIZE as int,
                    ps as int,
                ),
            decreases ps - k + if same { 1int } else { 0int },
        {
            if pkt[k] != self.data_buf[ptr + k] {
                assert(pkt@.subrange(PACKET_HEAD_SIZE as int, ps as int)[k - PACKET_HEAD_SIZE]
                    != slot.subrange(PACKET_HEAD_SIZE as int, ps as int)[k - PACKET_HEAD_SIZE]);
                same = false;
            } else {
                k = k + 1;
            }
        }
        if !same {
            return false;
        }
        assert(pkt@.subrange(PACKET_HEAD_SIZE as int, ps as int) =~= slot.subrange(PACKET_HEAD_SIZE as int, ps as int));
        self.recv_stats.recv(head.send_time);
        true
    }

    /// Hands over the rows of sent packets not taken yet, and those of the
    /// receiver's histogram.
    pub fn take_rows(&mut self) -> (r: (Vec<CountRow>, Vec<CountRow>))
        requires
            old(self).wf(),
        ensures
            final(self).wf(),
            r.0@ == old(self).spec_rows(),
            r.1@ == old(self).spec_recv().rows,
            final(self).spec_rows() == Seq::<CountRow>::empty(),
            final(self).spec_recv().rows == Seq::<CountRow>::empty(),
            final(self).spec_recv().counts == old(self).spec_recv().counts,
            final(self).spec_recv().start == old(self).spec_recv().start,
            final(self).spec_packet_size() == old(self).spec_packet_size(),
            final(self).spec_data() == old(self).spec_data(),
            final(self).spec_next_index() == old(self).spec_next_index(),
            final(self).spec_last_step() == old(self).spec_last_step(),
            final(self).spec_step_first_index() == old(self).spec_step_first_index(),
            final(self).spec_records_rows() == old(self).spec_records_rows(),
            final(self).spec_recv_records_rows() == old(self).spec_recv_records_rows(),
    {
        let sent = self.rows.split_off(0);
        assert(self.rows@ =~= Seq::<CountRow>::empty());
        let received = self.recv_stats.take_rows();
        (sent, received)
    }
}
} // verus!
