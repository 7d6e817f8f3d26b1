use std::collections::HashMap;
use udpbench::stats::{Stats, StatsAggregator};

fn tx(n: u64) -> Stats {
    Stats { tx_packets: n, rx_packets: 0, rx_packets_sent_here: 0, total_latency_sent_here: 0 }
}

fn step(agg: &mut StatsAggregator, time: u64) -> Stats {
    *agg.get_step_mut(time).unwrap()
}

#[test]
fn aggregator_eviction_scenario() {
    // step 100, window of 10 steps, keep ceil(200 / 100) + 1 = 3 steps after an eviction
    let mut agg = StatsAggregator::new(100, 10, 200, true);
    let mut evicted = Vec::new();
    for k in 0..=20u64 {
        assert!(agg.access_step(k * 100, &tx(1)));
        evicted.extend(agg.take_evicted());
        assert!(agg.window_len() <= 10);
    }
    let times: Vec<u64> = evicted.iter().map(|e| e.0).collect();
    let expected: Vec<u64> = (0..16).map(|k| k * 100).collect();
    assert_eq!(times, expected);
    for (_, s) in &evicted {
        assert_eq!(s.tx_packets, 1);
    }
    assert_eq!(agg.first_step_idx(), 16);
    assert_eq!(agg.window_len(), 5);
    for k in 16..=20u64 {
        assert_eq!(step(&mut agg, k * 100).tx_packets, 1);
    }
}

#[test]
fn stale_step_is_refused() {
    let mut agg = StatsAggregator::new(10, 3, 0, false);
    assert!(agg.access_step(100, &tx(1)));
    // growing past 3 steps keeps ceil(0 / 10) + 1 = 1 step: step 10 alone
    assert_eq!(agg.first_step_idx(), 10);
    assert!(!agg.access_step(5, &tx(1)));
    assert!(agg.get_step_mut(89).is_none());
    assert_eq!(agg.window_len(), 1);
}

#[test]
fn updates_add_up_in_one_step() {
    let mut agg = StatsAggregator::new(1000, 100, 5000, false);
    agg.access_step(1500, &tx(2));
    agg.access_step(1999, &tx(3));
    let d = Stats { tx_packets: 0, rx_packets: 4, rx_packets_sent_here: 1, total_latency_sent_here: 77 };
    agg.access_step(1000, &d);
    let s = step(&mut agg, 1000);
    assert_eq!(s, Stats { tx_packets: 5, rx_packets: 4, rx_packets_sent_here: 1, total_latency_sent_here: 77 });
    // steps 0 and 1 exist, step 0 untouched
    assert_eq!(agg.window_len(), 2);
    assert_eq!(step(&mut agg, 0), Stats::zero());
}

#[test]
fn counters_wrap_like_fetch_add() {
    let mut agg = StatsAggregator::new(1, 4, 1, false);
    agg.access_step(0, &tx(u64::MAX));
    agg.access_step(0, &tx(2));
    assert_eq!(step(&mut agg, 0).tx_packets, 1);
}

#[test]
fn counters_never_decrease_while_retained() {
    let mut agg = StatsAggregator::new(10, 8, 20, false);
    let mut last = 0u64;
    for t in [0u64, 3, 9, 5, 1, 7] {
        agg.access_step(t, &tx(1));
        let now = step(&mut agg, 0).tx_packets;
        assert!(now >= last);
        last = now;
    }
    assert_eq!(last, 6);
}

#[test]
fn window_has_no_gaps_after_a_jump() {
    let mut agg = StatsAggregator::new(10, 100, 10, true);
    agg.access_step(0, &tx(1));
    agg.access_step(200, &tx(1));
    // 21 steps, below the maximum: all present
    assert_eq!(agg.first_step_idx(), 0);
    assert_eq!(agg.window_len(), 21);
    for k in 1..20u64 {
        assert_eq!(step(&mut agg, k * 10), Stats::zero());
    }
    assert!(agg.take_evicted().is_empty());
}

#[test]
fn jump_past_the_window_evicts_in_order() {
    let mut agg = StatsAggregator::new(10, 4, 10, true);
    agg.access_step(0, &tx(7));
    agg.access_step(10, &tx(8));
    // jump to step 6: 7 steps > 4, keep ceil(10 / 10) + 1 = 2 steps: 5 and 6
    agg.access_step(60, &tx(9));
    let ev = agg.take_evicted();
    let times: Vec<u64> = ev.iter().map(|e| e.0).collect();
    assert_eq!(times, vec![0, 10, 20, 30, 40]);
    assert_eq!(ev[0].1.tx_packets, 7);
    assert_eq!(ev[1].1.tx_packets, 8);
    assert_eq!(ev[2].1, Stats::zero());
    assert_eq!(agg.first_step_idx(), 5);
    assert_eq!(agg.window_len(), 2);
    assert_eq!(step(&mut agg, 60).tx_packets, 9);
    assert!(agg.take_evicted().is_empty());
}

#[test]
fn evicted_steps_are_dropped_without_recording() {
    let mut agg = StatsAggregator::new(10, 2, 0, false);
    for t in 0..10u64 {
        agg.access_step(t * 10, &tx(1));
    }
    assert!(agg.take_evicted().is_empty());
    assert!(agg.window_len() <= 2);
}

#[test]
fn sent_here_stays_within_tx_when_updates_respect_it() {
    let mut agg = StatsAggregator::new(10, 3, 10, true);
    for t in [0u64, 5, 10, 35, 40] {
        agg.access_step(t, &tx(2));
        let d = Stats { tx_packets: 0, rx_packets: 1, rx_packets_sent_here: 1, total_latency_sent_here: 3 };
        agg.access_step(t, &d);
    }
    for (_, s) in agg.take_evicted() {
        assert!(s.rx_packets_sent_here <= s.tx_packets);
    }
    let first = agg.first_step_idx();
    for k in 0..agg.window_len() as u64 {
        let s = step(&mut agg, (first + k) * 10);
        assert!(s.rx_packets_sent_here <= s.tx_packets);
    }
}

#[test]
fn matches_a_plain_map_up_to_eviction() {
    let step_size = 10u64;
    let mut agg = StatsAggregator::new(step_size, 8, 25, true);
    let mut reference: HashMap<u64, Stats> = HashMap::new();
    let mut seen: HashMap<u64, Stats> = HashMap::new();
    let mut x: u64 = 12345;
    let mut base: u64 = 0;
    for _ in 0..2000 {
        x = x.wrapping_mul(6364136223846793005).wrapping_add(1442695040888963407);
        base += (x >> 60) % 3;
        let time = base.saturating_sub((x >> 40) % 50);
        let n = (x >> 20) % 5;
        let d = match (x >> 10) % 4 {
            0 => Stats { tx_packets: n, rx_packets: 0, rx_packets_sent_here: 0, total_latency_sent_here: 0 },
            1 => Stats { tx_packets: 0, rx_packets: n, rx_packets_sent_here: 0, total_latency_sent_here: 0 },
            2 => Stats { tx_packets: 0, rx_packets: 0, rx_packets_sent_here: n, total_latency_sent_here: 0 },
            _ => Stats { tx_packets: 0, rx_packets: 0, rx_packets_sent_here: 0, total_latency_sent_here: n },
        };
        if agg.access_step(time, &d) {
            let e = reference.entry(time / step_size).or_insert(Stats::zero());
            e.tx_packets += d.tx_packets;
            e.rx_packets += d.rx_packets;
            e.rx_packets_sent_here += d.rx_packets_sent_here;
            e.total_latency_sent_here += d.total_latency_sent_here;
        }
        for (t, s) in agg.take_evicted() {
            assert!(seen.insert(t / step_size, s).is_none());
        }
    }
    let first = agg.first_step_idx();
    for k in 0..agg.window_len() as u64 {
        let s = *agg.get_step_mut((first + k) * step_size).unwrap();
        assert!(seen.insert(first + k, s).is_none());
    }
    for (idx, s) in &reference {
        assert_eq!(seen.get(idx), Some(s));
    }
    for (idx, s) in &seen {
        if !reference.contains_key(idx) {
            assert_eq!(*s, Stats::zero());
        }
    }
}

#[test]
fn eviction_keeps_at_most_the_window_when_threshold_is_larger() {
    // keep ceil(5 / 1) + 1 = 6 steps, but the window holds 1
    let mut agg = StatsAggregator::new(1, 1, 5, true);
    agg.access_step(0, &tx(1));
    agg.access_step(3, &tx(2));
    assert_eq!(agg.first_step_idx(), 3);
    assert_eq!(agg.window_len(), 1);
    let times: Vec<u64> = agg.take_evicted().iter().map(|e| e.0).collect();
    assert_eq!(times, vec![0, 1, 2]);
    assert_eq!(step(&mut agg, 3).tx_packets, 2);
}
