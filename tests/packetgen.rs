use udpbench::csv::{count_rows_header, push_count_row};
use udpbench::packetgen::{PacketGenerator, RecvStats, PACKET_CYCLE, RECV_MAX_BACKLOG, TIME_STEP_MILLIS};
use udpbench::pkt::{parse_packet, PacketHeader};

#[test]
fn generated_packets_carry_header_and_cycle_payload() {
    let mut g = PacketGenerator::init(32, 5, true, 0);
    let mut a = vec![0u8; 32];
    let mut b = vec![0u8; 32];
    g.get_next_packet(&mut a, 3);
    g.get_next_packet(&mut b, 4);
    assert_eq!(parse_packet(0, &a).unwrap(), PacketHeader { index: 0, send_time: 3 });
    assert_eq!(parse_packet(0, &b).unwrap(), PacketHeader { index: 1, send_time: 4 });
    // the payloads come from the seeded generator, not from zeroed memory
    assert!(a[16..].iter().any(|x| *x != 0));
    assert_ne!(a[16..], b[16..]);
}

#[test]
fn same_seed_same_payloads() {
    let mut g1 = PacketGenerator::init(24, 77, true, 0);
    let mut g2 = PacketGenerator::init(24, 77, false, 0);
    let mut a = vec![0u8; 24];
    let mut b = vec![0u8; 24];
    g1.get_next_packet(&mut a, 0);
    g2.get_next_packet(&mut b, 0);
    assert_eq!(a, b);
}

#[test]
fn receiver_accepts_own_packets_and_rejects_altered_ones() {
    let mut tx = PacketGenerator::init(40, 9, true, 0);
    let mut rx = PacketGenerator::init(40, 9, false, 0);
    let mut p = vec![0u8; 40];
    tx.get_next_packet(&mut p, 12);
    assert!(rx.verify_recv_packet(&p));
    let mut q = p.clone();
    q[39] ^= 1;
    assert!(!rx.verify_recv_packet(&q));
    assert!(!rx.verify_recv_packet(&p[..39]));
}

#[test]
fn header_only_packets_have_no_payload_to_check() {
    let mut tx = PacketGenerator::init(16, 1, true, 0);
    let mut rx = PacketGenerator::init(16, 2, false, 0);
    let mut p = vec![0u8; 16];
    tx.get_next_packet(&mut p, 0);
    assert!(rx.verify_recv_packet(&p));
}

#[test]
fn sent_counts_become_rows_each_step() {
    let mut g = PacketGenerator::init(16, 1, true, 100);
    let mut p = vec![0u8; 16];
    g.get_next_packet(&mut p, 101);
    g.get_next_packet(&mut p, 105);
    g.get_next_packet(&mut p, 110);
    g.get_next_packet(&mut p, 111);
    let (sent, received) = g.take_rows();
    assert_eq!(sent, vec![(100, 100 + TIME_STEP_MILLIS, 3)]);
    assert!(received.is_empty());
    assert_eq!(PACKET_CYCLE, 1024000);
}

#[test]
fn histogram_shifts_and_reports_evicted_steps() {
    let mut r = RecvStats::new(3);
    r.set_stats_file();
    r.recv(0);
    r.recv(5);
    r.recv(25);
    assert!(r.take_rows().is_empty());
    // 40 ms is step 4: two steps are shifted out
    r.recv(40);
    assert_eq!(r.take_rows(), vec![(0, 10, 2), (10, 20, 0)]);
    // a packet older than the histogram is ignored
    r.recv(3);
    // far ahead: all three steps are shifted out
    r.recv(1000);
    assert_eq!(r.take_rows(), vec![(20, 30, 1), (30, 40, 0), (40, 50, 1)]);
    assert_eq!(RECV_MAX_BACKLOG, 100);
}

#[test]
fn histogram_without_rows_keeps_none() {
    let mut r = RecvStats::new(2);
    r.recv(0);
    r.recv(100);
    assert!(r.take_rows().is_empty());
}

#[test]
fn count_rows_are_csv() {
    let mut out = count_rows_header().into_bytes();
    push_count_row(&mut out, 0, 10, 42);
    assert_eq!(String::from_utf8(out).unwrap(), "start_ms,end_ms,count\n0,10,42\n");
}

