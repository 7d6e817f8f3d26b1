use udpbench::errors::AppError;
use udpbench::stats::StatsAggregator;
use udpbench::uring::{NextSubmission, RecvStarvationMonitor, RequestKind, SlotState, SlotTable};

fn post_recv(t: &mut SlotTable, slot: usize) -> u64 {
    let ud = t.user_data_for(slot).unwrap();
    t.record_push(slot, RequestKind::Recv, true, 4).unwrap();
    ud
}

#[test]
fn ring_full_is_reported_with_kind_slot_and_capacity() {
    // ring of 4 slots, 4 receives posted, the completions are not consumed
    let mut agg = StatsAggregator::new(1000, 16, 1000, false);
    let mut t = SlotTable::new(4, false);
    let mut tags = Vec::new();
    for slot in 0..4 {
        tags.push(post_recv(&mut t, slot));
    }
    assert_eq!(t.nb_active_recv(), 4);
    // a receive on slot 2 came back empty: it is to be posted again, but the queue is full
    let next = t.complete(tags[2], 0, &mut agg, 5).unwrap();
    assert_eq!(next, NextSubmission::Repost { slot: 2 });
    match t.record_push(2, RequestKind::Recv, false, 4) {
        Err(AppError::IoUringFull(kind, slot, cap)) => {
            assert_eq!(kind, "recv");
            assert_eq!(slot, 2);
            assert_eq!(cap, 4);
        }
        other => panic!("unexpected {:?}", other),
    }
    assert_eq!(t.slot_state(2), SlotState::RecvInProgress);
    assert!(!t.is_outstanding(2));
    assert_eq!(t.nb_active_recv(), 3);
}

#[test]
fn echo_cycle_recv_send_recv() {
    let mut agg = StatsAggregator::new(1000, 16, 1000, false);
    let mut t = SlotTable::new(8, false);
    let ud = post_recv(&mut t, 3);
    assert_eq!(ud, 3);
    assert_eq!(t.slot_state(3), SlotState::RecvInProgress);
    let next = t.complete(3, 128, &mut agg, 2500).unwrap();
    assert_eq!(next, NextSubmission::Echo { slot: 3, len: 128 });
    assert_eq!(t.nb_active_recv(), 0);
    assert_eq!(agg.get_step_mut(2500).unwrap().rx_packets, 1);
    t.record_push(3, RequestKind::Send, true, 8).unwrap();
    assert_eq!(t.slot_state(3), SlotState::SendInProgress);
    assert_eq!(t.nb_active_recv(), 0);
    let next = t.complete(3, -11, &mut agg, 2600).unwrap();
    assert_eq!(next, NextSubmission::Recycle { slot: 3 });
    assert_eq!(agg.get_step_mut(2600).unwrap().tx_packets, 1);
    assert_eq!(t.slot_state(3), SlotState::SendInProgress);
    assert!(!t.is_outstanding(3));
}

#[test]
fn send_queue_full_names_send() {
    let mut t = SlotTable::new(2, false);
    match t.record_push(1, RequestKind::Send, false, 2) {
        Err(AppError::IoUringFull(kind, 1, 2)) => assert_eq!(kind, "send"),
        other => panic!("unexpected {:?}", other),
    }
}

#[test]
fn stray_completions_are_refused() {
    let mut agg = StatsAggregator::new(1000, 16, 1000, false);
    let mut t = SlotTable::new(4, false);
    assert!(matches!(t.complete(9, 1, &mut agg, 0), Err(AppError::UnknownCompletion(9))));
    assert!(matches!(t.complete(1, 1, &mut agg, 0), Err(AppError::UnknownCompletion(1))));
    assert_eq!(agg.window_len(), 0);
}

#[test]
fn tagged_requests_get_fresh_tags() {
    let mut agg = StatsAggregator::new(1000, 16, 1000, false);
    let mut t = SlotTable::new(4, true);
    let a = t.user_data_for(0).unwrap();
    t.record_push(0, RequestKind::Recv, true, 4).unwrap();
    let b = t.user_data_for(1).unwrap();
    t.record_push(1, RequestKind::Recv, true, 4).unwrap();
    assert_eq!((a, b), (0, 1));
    assert_eq!(t.complete(b, 10, &mut agg, 0).unwrap(), NextSubmission::Echo { slot: 1, len: 10 });
    // the tag is used up
    assert!(matches!(t.complete(b, 10, &mut agg, 0), Err(AppError::UnknownCompletion(1))));
    let c = t.user_data_for(1).unwrap();
    assert_eq!(c, 2);
    t.record_push(1, RequestKind::Send, true, 4).unwrap();
    assert_eq!(t.complete(c, 10, &mut agg, 0).unwrap(), NextSubmission::Recycle { slot: 1 });
    assert_eq!(t.complete(a, 0, &mut agg, 0).unwrap(), NextSubmission::Repost { slot: 0 });
    assert_eq!(t.nb_active_recv(), 0);
}

#[test]
fn starvation_warns_after_five_seconds_then_every_second() {
    let mut m = RecvStarvationMonitor::new(0);
    assert!(!m.check(62, 64, 10_000));
    assert!(!m.check(61, 64, 14_000));
    assert!(!m.check(61, 64, 15_000));
    assert!(m.check(61, 64, 15_001));
    // the next warning comes a second later
    assert!(!m.check(61, 64, 15_500));
    assert!(m.check(61, 64, 16_001));
    // back to normal
    assert!(!m.check(63, 64, 17_000));
    assert!(!m.check(0, 64, 21_000));
    assert!(m.check(0, 64, 22_001));
}

#[test]
fn new_slots_start_receiving_and_owned_by_the_engine() {
    let t = SlotTable::new(3, false);
    for i in 0..3 {
        assert_eq!(t.slot_state(i), SlotState::RecvInProgress);
        assert!(!t.is_outstanding(i));
    }
    assert_eq!(t.nb_active_recv(), 0);
}
