use udpbench::engine::{
    fill_batch, record_echo, record_received, record_send_result, record_sent, send_error, RecvOutcome,
};
use udpbench::errors::AppError;
use udpbench::pkt::{parse_packet, write_packet, PacketHeader};
use udpbench::stats::{Stats, StatsAggregator};

fn agg() -> StatsAggregator {
    StatsAggregator::new(100, 1000, 1000, false)
}

#[test]
fn batch_headers_take_consecutive_indices() {
    let mut buf = vec![0xEEu8; 32 * 3];
    fill_batch(9, 40, 1234, 32, 3, &mut buf);
    for i in 0..3 {
        let h = parse_packet(9, &buf[i * 32..(i + 1) * 32]).unwrap();
        assert_eq!(h, PacketHeader { index: 40 + i as u64, send_time: 1234 });
        assert!(buf[i * 32 + 16..(i + 1) * 32].iter().all(|b| *b == 0xEE));
    }
}

#[test]
fn batch_indices_wrap() {
    let mut buf = vec![0u8; 16 * 2];
    fill_batch(0, u64::MAX, 5, 16, 2, &mut buf);
    assert_eq!(parse_packet(0, &buf[0..16]).unwrap().index, u64::MAX);
    assert_eq!(parse_packet(0, &buf[16..32]).unwrap().index, 0);
}

#[test]
fn sent_packets_counted_in_their_step() {
    let mut a = agg();
    assert!(record_sent(&mut a, 250, 32));
    assert!(record_sent(&mut a, 299, 32));
    assert_eq!(a.get_step_mut(200).unwrap().tx_packets, 64);
}

#[test]
fn received_packet_counts_in_both_steps() {
    let mut a = agg();
    let mut buf = vec![0u8; 128 + 4];
    write_packet(1, 7, 150, &mut buf[..128]);
    let r = record_received(&mut a, 1, 128, &buf, 128, 420);
    assert_eq!(r, RecvOutcome::Counted(PacketHeader { index: 7, send_time: 150 }));
    assert_eq!(
        *a.get_step_mut(420).unwrap(),
        Stats { tx_packets: 0, rx_packets: 1, rx_packets_sent_here: 0, total_latency_sent_here: 0 }
    );
    assert_eq!(
        *a.get_step_mut(150).unwrap(),
        Stats { tx_packets: 0, rx_packets: 0, rx_packets_sent_here: 1, total_latency_sent_here: 270 }
    );
}

#[test]
fn wrong_size_is_discarded() {
    let mut a = agg();
    let mut buf = vec![0u8; 132];
    write_packet(1, 7, 150, &mut buf[..128]);
    assert_eq!(record_received(&mut a, 1, 128, &buf, 132, 420), RecvOutcome::WrongSize);
    assert_eq!(record_received(&mut a, 1, 128, &buf, 64, 420), RecvOutcome::WrongSize);
    assert_eq!(a.window_len(), 0);
}

#[test]
fn too_short_for_a_header_is_malformed() {
    let mut a = agg();
    let buf = vec![0u8; 12];
    assert_eq!(record_received(&mut a, 1, 8, &buf, 8, 420), RecvOutcome::Malformed);
    assert_eq!(a.window_len(), 0);
}

#[test]
fn send_time_after_receipt_is_discarded() {
    let mut a = agg();
    let mut buf = vec![0u8; 64];
    write_packet(1, 7, 500, &mut buf);
    assert_eq!(record_received(&mut a, 1, 64, &buf, 64, 499), RecvOutcome::SentAfterReceipt);
    assert_eq!(a.window_len(), 0);
}

#[test]
fn echo_counts_rx_and_tx_when_sent() {
    let mut a = agg();
    record_echo(&mut a, 10, true);
    record_echo(&mut a, 20, false);
    let s = *a.get_step_mut(0).unwrap();
    assert_eq!((s.rx_packets, s.tx_packets), (2, 1));
}

#[test]
fn idle_echo_counts_nothing() {
    // no datagram arrives: nothing is recorded, every evicted step is zero
    let mut a = StatsAggregator::new(100, 3, 100, true);
    a.access_step(1000, &Stats::zero());
    for (_, s) in a.take_evicted() {
        assert_eq!(s.rx_packets, 0);
    }
}

#[test]
fn send_errors_are_classified() {
    let e = send_error("send", true, std::io::Error::from_raw_os_error(90));
    assert!(matches!(e, AppError::PacketSizeTooLarge));
    let e = send_error("sendmmsg", false, std::io::Error::from_raw_os_error(11));
    assert!(matches!(e, AppError::IOError("sendmmsg", _)));
}

#[test]
fn sent_here_never_exceeds_sent() {
    let mut a = StatsAggregator::new(100, 6, 150, true);
    let mut buf = vec![0u8; 32];
    let mut in_flight: Vec<u64> = Vec::new();
    let mut evicted = Vec::new();
    for k in 0..40u64 {
        let t = k * 37;
        record_sent(&mut a, t, 1);
        in_flight.push(t);
        if k % 3 == 2 {
            let send_time = in_flight.remove(0);
            write_packet(0, k, send_time, &mut buf);
            record_received(&mut a, 0, 32, &buf, 32, t + 5);
        }
        evicted.extend(a.take_evicted());
    }
    for (_, s) in &evicted {
        assert!(s.rx_packets_sent_here <= s.tx_packets);
    }
    let first = a.first_step_idx();
    for k in 0..a.window_len() as u64 {
        let s = *a.get_step_mut((first + k) * 100).unwrap();
        assert!(s.rx_packets_sent_here <= s.tx_packets);
    }
    assert!(!evicted.is_empty());
}

#[test]
fn send_results_decide_counting_and_continuing() {
    let mut a = agg();
    assert!(record_send_result(&mut a, 100, 16, &Ok(())));
    assert_eq!(a.get_step_mut(100).unwrap().tx_packets, 16);
    let other = Err(AppError::IOError("send", std::io::Error::from_raw_os_error(111)));
    assert!(record_send_result(&mut a, 100, 16, &other));
    assert!(!record_send_result(&mut a, 100, 16, &Err(AppError::PacketSizeTooLarge)));
    assert_eq!(a.get_step_mut(100).unwrap().tx_packets, 16);
}
