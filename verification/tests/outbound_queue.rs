use dactor::message::Priority;
use dactor::outbound_queue::{
    AgingWireComparer, EnvelopeMetadata, EnvelopeOrder, OutboundPriorityQueue,
    StrictPriorityWireComparer, WireEnvelopeComparer,
};
use dactor::remote::{ActorId, NodeId, SendMode, WireEnvelope, WireHeaders};

fn envelope_with_priority(priority: Priority) -> WireEnvelope {
    let mut headers = WireHeaders::new();
    if let Some(bytes) = priority.to_bytes() {
        headers.insert(priority.header_name().to_string(), bytes);
    }
    WireEnvelope {
        target: ActorId {
            node: NodeId("n1".into()),
            local: 1,
        },
        target_name: "test".into(),
        message_type: "test::Msg".into(),
        send_mode: SendMode::Tell,
        headers,
        body: vec![priority.0],
        request_id: None,
        version: None,
    }
}

fn envelope_no_priority() -> WireEnvelope {
    WireEnvelope {
        target: ActorId {
            node: NodeId("n1".into()),
            local: 1,
        },
        target_name: "test".into(),
        message_type: "test::Msg".into(),
        send_mode: SendMode::Tell,
        headers: WireHeaders::new(),
        body: vec![],
        request_id: None,
        version: None,
    }
}

fn stream_envelope(seq: u8) -> WireEnvelope {
    WireEnvelope {
        target: ActorId {
            node: NodeId("n1".into()),
            local: 1,
        },
        target_name: "test".into(),
        message_type: "test::StreamItem".into(),
        send_mode: SendMode::Expand,
        headers: WireHeaders::new(),
        body: vec![seq],
        request_id: None,
        version: None,
    }
}

fn feed_envelope(seq: u8) -> WireEnvelope {
    WireEnvelope {
        target: ActorId {
            node: NodeId("n1".into()),
            local: 1,
        },
        target_name: "test".into(),
        message_type: "test::FeedItem".into(),
        send_mode: SendMode::Reduce,
        headers: WireHeaders::new(),
        body: vec![seq],
        request_id: None,
        version: None,
    }
}

// -- Lane mode --

#[test]
fn empty_queue() {
    let mut q = OutboundPriorityQueue::new();
    assert!(q.is_empty());
    assert!(q.pop().is_none());
    assert!(q.peek().is_none());
}

#[test]
fn priority_ordering() {
    let mut q = OutboundPriorityQueue::new();
    q.push(envelope_with_priority(Priority::background())).unwrap();
    q.push(envelope_with_priority(Priority::low())).unwrap();
    q.push(envelope_with_priority(Priority::normal())).unwrap();
    q.push(envelope_with_priority(Priority::high())).unwrap();
    q.push(envelope_with_priority(Priority::critical())).unwrap();
    assert_eq!(q.len(), 5);
    assert_eq!(q.pop().unwrap().body, vec![Priority::critical().0]);
    assert_eq!(q.pop().unwrap().body, vec![Priority::high().0]);
    assert_eq!(q.pop().unwrap().body, vec![Priority::normal().0]);
    assert_eq!(q.pop().unwrap().body, vec![Priority::low().0]);
    assert_eq!(q.pop().unwrap().body, vec![Priority::background().0]);
}

#[test]
fn fifo_within_lane() {
    let mut q = OutboundPriorityQueue::new();
    let mut e1 = envelope_with_priority(Priority::normal());
    e1.body = vec![1];
    let mut e2 = envelope_with_priority(Priority::normal());
    e2.body = vec![2];
    q.push(e1).unwrap();
    q.push(e2).unwrap();
    assert_eq!(q.pop().unwrap().body, vec![1]);
    assert_eq!(q.pop().unwrap().body, vec![2]);
}

#[test]
fn no_priority_defaults_to_normal() {
    let mut q = OutboundPriorityQueue::new();
    q.push(envelope_no_priority()).unwrap();
    assert_eq!(q.lane_counts()[2], 1);
}

#[test]
fn capacity_rejects() {
    let mut q = OutboundPriorityQueue::with_config(2, 0);
    q.push(envelope_with_priority(Priority::normal())).unwrap();
    q.push(envelope_with_priority(Priority::normal())).unwrap();
    assert!(q.push(envelope_with_priority(Priority::critical())).is_err());
    assert_eq!(q.len(), 2);
}

#[test]
fn fairness() {
    let mut q = OutboundPriorityQueue::with_config(0, 2);
    for _ in 0..5 {
        q.push(envelope_with_priority(Priority::critical())).unwrap();
    }
    for _ in 0..3 {
        q.push(envelope_with_priority(Priority::normal())).unwrap();
    }
    assert_eq!(q.pop().unwrap().body, vec![Priority::critical().0]);
    assert_eq!(q.pop().unwrap().body, vec![Priority::critical().0]);
    // Fairness kicks in: rotates to normal
    assert_eq!(q.pop().unwrap().body, vec![Priority::normal().0]);
}

#[test]
fn lane_boundary_values() {
    let mut q = OutboundPriorityQueue::new();
    q.push(envelope_with_priority(Priority(63))).unwrap();
    q.push(envelope_with_priority(Priority(64))).unwrap();
    q.push(envelope_with_priority(Priority(127))).unwrap();
    q.push(envelope_with_priority(Priority(128))).unwrap();
    q.push(envelope_with_priority(Priority(191))).unwrap();
    q.push(envelope_with_priority(Priority(192))).unwrap();
    q.push(envelope_with_priority(Priority(254))).unwrap();
    q.push(envelope_with_priority(Priority(255))).unwrap();
    let counts = q.lane_counts();
    assert_eq!(counts, [1, 2, 2, 2, 1]);
}

#[test]
fn drain_ordered_lane_mode() {
    let mut q = OutboundPriorityQueue::new();
    q.push(envelope_with_priority(Priority::low())).unwrap();
    q.push(envelope_with_priority(Priority::critical())).unwrap();
    let drained = q.drain_ordered();
    assert_eq!(drained.len(), 2);
    assert_eq!(drained[0].body, vec![Priority::critical().0]);
    assert_eq!(drained[1].body, vec![Priority::low().0]);
    assert!(q.is_empty());
}

#[test]
fn clear_empties_all() {
    let mut q = OutboundPriorityQueue::new();
    q.push(envelope_with_priority(Priority::high())).unwrap();
    q.push(envelope_with_priority(Priority::low())).unwrap();
    q.clear();
    assert!(q.is_empty());
    assert_eq!(q.lane_counts(), [0, 0, 0, 0, 0]);
}

// -- Comparer mode --

#[test]
fn comparer_strict_priority_ordering() {
    let mut q = OutboundPriorityQueue::with_comparer(StrictPriorityWireComparer, 0);
    q.push(envelope_with_priority(Priority::low())).unwrap();
    q.push(envelope_with_priority(Priority::critical())).unwrap();
    q.push(envelope_with_priority(Priority::normal())).unwrap();

    assert_eq!(q.len(), 3);
    assert_eq!(q.comparer_count(), 3);
    assert_eq!(q.pop().unwrap().body, vec![Priority::critical().0]);
    assert_eq!(q.pop().unwrap().body, vec![Priority::normal().0]);
    assert_eq!(q.pop().unwrap().body, vec![Priority::low().0]);
}

#[test]
fn comparer_fifo_for_equal_priority() {
    let mut q = OutboundPriorityQueue::with_comparer(StrictPriorityWireComparer, 0);
    let mut e1 = envelope_with_priority(Priority::normal());
    e1.body = vec![1];
    let mut e2 = envelope_with_priority(Priority::normal());
    e2.body = vec![2];
    let mut e3 = envelope_with_priority(Priority::normal());
    e3.body = vec![3];
    q.push(e1).unwrap();
    q.push(e2).unwrap();
    q.push(e3).unwrap();
    // Equal priority: FIFO order
    assert_eq!(q.pop().unwrap().body, vec![1]);
    assert_eq!(q.pop().unwrap().body, vec![2]);
    assert_eq!(q.pop().unwrap().body, vec![3]);
}

#[test]
fn comparer_peek_works() {
    let mut q = OutboundPriorityQueue::with_comparer(StrictPriorityWireComparer, 0);
    q.push(envelope_with_priority(Priority::low())).unwrap();
    q.push(envelope_with_priority(Priority::critical())).unwrap();
    let peeked = q.peek().unwrap();
    assert_eq!(peeked.body, vec![Priority::critical().0]);
    assert_eq!(q.len(), 2); // peek doesn't remove
}

#[test]
fn comparer_drain_ordered() {
    let mut q = OutboundPriorityQueue::with_comparer(StrictPriorityWireComparer, 0);
    q.push(envelope_with_priority(Priority::low())).unwrap();
    q.push(envelope_with_priority(Priority::critical())).unwrap();
    q.push(envelope_with_priority(Priority::normal())).unwrap();
    let drained = q.drain_ordered();
    assert_eq!(drained.len(), 3);
    assert_eq!(drained[0].body, vec![Priority::critical().0]);
    assert_eq!(drained[1].body, vec![Priority::normal().0]);
    assert_eq!(drained[2].body, vec![Priority::low().0]);
    assert!(q.is_empty());
}

#[test]
fn comparer_clear_works() {
    let mut q = OutboundPriorityQueue::with_comparer(StrictPriorityWireComparer, 0);
    q.push(envelope_with_priority(Priority::high())).unwrap();
    q.push(envelope_with_priority(Priority::low())).unwrap();
    q.clear();
    assert!(q.is_empty());
    assert_eq!(q.comparer_count(), 0);
}

#[test]
fn comparer_with_capacity() {
    let mut q = OutboundPriorityQueue::with_comparer(StrictPriorityWireComparer, 2);
    q.push(envelope_with_priority(Priority::normal())).unwrap();
    q.push(envelope_with_priority(Priority::normal())).unwrap();
    assert!(q.push(envelope_with_priority(Priority::critical())).is_err());
}

#[test]
fn comparer_lane_counts_returns_zeros() {
    let mut q = OutboundPriorityQueue::with_comparer(StrictPriorityWireComparer, 0);
    q.push(envelope_with_priority(Priority::high())).unwrap();
    assert_eq!(q.lane_counts(), [0, 0, 0, 0, 0]);
    assert_eq!(q.comparer_count(), 1);
}

// -- Stream ordering --

#[test]
fn stream_items_interleave_with_priority() {
    let mut q = OutboundPriorityQueue::new();
    q.push(envelope_with_priority(Priority::low())).unwrap();
    q.push(stream_envelope(1)).unwrap();
    q.push(stream_envelope(2)).unwrap();
    q.push(envelope_with_priority(Priority::critical())).unwrap();

    let mut stream_items = vec![];
    let mut tell_items = vec![];
    while let Some(e) = q.pop() {
        if matches!(e.send_mode, SendMode::Expand) {
            stream_items.push(e.body[0]);
        } else {
            tell_items.push(e.body[0]);
        }
    }
    assert_eq!(stream_items, vec![1, 2]);
    assert_eq!(tell_items, vec![Priority::critical().0, Priority::low().0]);
}

#[test]
fn stream_items_preserve_fifo_order() {
    let mut q = OutboundPriorityQueue::new();
    for i in 0..10 {
        q.push(stream_envelope(i)).unwrap();
    }
    for i in 0..10 {
        assert_eq!(q.pop().unwrap().body, vec![i]);
    }
}

#[test]
fn feed_items_also_use_fifo() {
    let mut q = OutboundPriorityQueue::new();
    q.push(feed_envelope(1)).unwrap();
    q.push(feed_envelope(2)).unwrap();
    q.push(feed_envelope(3)).unwrap();

    assert_eq!(q.pop().unwrap().body, vec![1]);
    assert_eq!(q.pop().unwrap().body, vec![2]);
    assert_eq!(q.pop().unwrap().body, vec![3]);
}

#[test]
fn stream_count_tracks_fifo() {
    let mut q = OutboundPriorityQueue::new();
    q.push(stream_envelope(1)).unwrap();
    q.push(stream_envelope(2)).unwrap();
    q.push(envelope_with_priority(Priority::normal())).unwrap();

    assert_eq!(q.fifo_count(), 2);
    assert_eq!(q.len(), 3);
}

#[test]
fn stream_items_in_drain_come_first() {
    let mut q = OutboundPriorityQueue::new();
    q.push(envelope_with_priority(Priority::high())).unwrap();
    q.push(stream_envelope(10)).unwrap();
    q.push(envelope_with_priority(Priority::critical())).unwrap();
    q.push(stream_envelope(20)).unwrap();

    let drained = q.drain_ordered();
    assert_eq!(drained.len(), 4);
    assert_eq!(drained[0].body, vec![10]);
    assert_eq!(drained[1].body, vec![20]);
    assert_eq!(drained[2].body, vec![Priority::critical().0]);
    assert_eq!(drained[3].body, vec![Priority::high().0]);
}

#[test]
fn peek_returns_stream_item_first() {
    let mut q = OutboundPriorityQueue::new();
    q.push(envelope_with_priority(Priority::critical())).unwrap();
    q.push(stream_envelope(99)).unwrap();
    let peeked = q.peek().unwrap();
    assert_eq!(peeked.body, vec![99]);
}

#[test]
fn clear_also_clears_stream_fifo() {
    let mut q = OutboundPriorityQueue::new();
    q.push(stream_envelope(1)).unwrap();
    q.push(envelope_with_priority(Priority::high())).unwrap();
    q.clear();
    assert!(q.is_empty());
    assert_eq!(q.fifo_count(), 0);
}

#[test]
fn stream_items_bypass_comparer_mode() {
    let mut q = OutboundPriorityQueue::with_comparer(StrictPriorityWireComparer, 0);
    q.push(envelope_with_priority(Priority::critical())).unwrap();
    q.push(stream_envelope(1)).unwrap();
    q.push(stream_envelope(2)).unwrap();

    assert_eq!(q.fifo_count(), 2);
    assert_eq!(q.comparer_count(), 1);

    let mut got_stream = false;
    let mut got_priority = false;
    while let Some(e) = q.pop() {
        if e.send_mode == SendMode::Expand {
            got_stream = true;
        } else {
            got_priority = true;
        }
    }
    assert!(got_stream);
    assert!(got_priority);
}

#[test]
fn interleaving_prevents_starvation() {
    let mut q = OutboundPriorityQueue::new();
    for i in 0..10 {
        q.push(stream_envelope(i)).unwrap();
    }
    q.push(envelope_with_priority(Priority::critical())).unwrap();

    let mut critical_seen_at = None;
    for i in 0..11 {
        let e = q.pop().unwrap();
        if e.send_mode == SendMode::Tell {
            critical_seen_at = Some(i);
            break;
        }
    }
    assert!(critical_seen_at.is_some());
    assert!(critical_seen_at.unwrap() < 10);
}

// -- Further cases --

#[test]
fn pop_returns_what_was_pushed_into_empty_queue() {
    for mode in 0..3 {
        let e = envelope_with_priority(Priority(77));
        let got = match mode {
            0 => {
                let mut q = OutboundPriorityQueue::new();
                q.push(e).unwrap();
                let r = q.pop();
                assert!(q.is_empty());
                r
            }
            1 => {
                let mut q = OutboundPriorityQueue::with_config(0, 3);
                q.push(e).unwrap();
                q.pop()
            }
            _ => {
                let mut q = OutboundPriorityQueue::with_comparer(StrictPriorityWireComparer, 0);
                q.push(e).unwrap();
                q.pop()
            }
        };
        assert_eq!(got.unwrap().body, vec![77]);
    }
}

#[test]
fn two_pops_take_from_both_sides() {
    // Both sides hold envelopes: a stream envelope first, then a tell.
    let mut q = OutboundPriorityQueue::new();
    q.push(stream_envelope(1)).unwrap();
    q.push(stream_envelope(2)).unwrap();
    q.push(envelope_with_priority(Priority::low())).unwrap();
    let first = q.pop().unwrap();
    let second = q.pop().unwrap();
    assert_eq!(first.body, vec![1]);
    assert_eq!(second.send_mode, SendMode::Tell);
    assert_eq!(q.pop().unwrap().body, vec![2]);
    assert!(q.pop().is_none());
    // After a lone side was drained, the next alternation starts with the stream.
    let mut q = OutboundPriorityQueue::new();
    q.push(envelope_with_priority(Priority::low())).unwrap();
    assert_eq!(q.pop().unwrap().send_mode, SendMode::Tell);
    q.push(envelope_with_priority(Priority::low())).unwrap();
    q.push(stream_envelope(5)).unwrap();
    assert_eq!(q.pop().unwrap().body, vec![5]);
    assert_eq!(q.pop().unwrap().send_mode, SendMode::Tell);
}

#[test]
fn stream_goes_first_then_priority_gets_a_turn() {
    let mut q = OutboundPriorityQueue::new();
    for i in 0..10 {
        q.push(stream_envelope(i)).unwrap();
    }
    q.push(envelope_with_priority(Priority::critical())).unwrap();
    let first = q.pop().unwrap();
    assert_eq!(first.send_mode, SendMode::Expand);
    assert_eq!(first.body, vec![0]);
    let second = q.pop().unwrap();
    assert_eq!(second.send_mode, SendMode::Tell);
    assert_eq!(second.body, vec![Priority::critical().0]);
    for i in 1..10 {
        assert_eq!(q.pop().unwrap().body, vec![i]);
    }
}

#[test]
fn fair_rotation_wraps_around() {
    let mut q = OutboundPriorityQueue::with_config(0, 1);
    q.push(envelope_with_priority(Priority(10))).unwrap();
    q.push(envelope_with_priority(Priority(11))).unwrap();
    q.push(envelope_with_priority(Priority(200))).unwrap();
    q.push(envelope_with_priority(Priority(201))).unwrap();
    assert_eq!(q.pop().unwrap().body, vec![10]);
    assert_eq!(q.pop().unwrap().body, vec![200]);
    assert_eq!(q.pop().unwrap().body, vec![11]);
    assert_eq!(q.pop().unwrap().body, vec![201]);
    assert!(q.pop().is_none());
}

#[test]
fn peek_matches_pop_in_strict_lane_mode() {
    let mut q = OutboundPriorityQueue::new();
    q.push(envelope_with_priority(Priority(150))).unwrap();
    q.push(envelope_with_priority(Priority(70))).unwrap();
    q.push(envelope_with_priority(Priority(80))).unwrap();
    let peeked = q.peek().unwrap().body.clone();
    assert_eq!(peeked, vec![70]);
    assert_eq!(q.pop().unwrap().body, peeked);
}

#[test]
fn push_at_records_time_for_drain_ties() {
    let mut q = OutboundPriorityQueue::with_comparer(StrictPriorityWireComparer, 0);
    let mut a = envelope_with_priority(Priority::normal());
    a.body = vec![1];
    let mut b = envelope_with_priority(Priority::normal());
    b.body = vec![2];
    let mut c = envelope_with_priority(Priority::high());
    c.body = vec![3];
    q.push_at(a, 50).unwrap();
    q.push_at(b, 20).unwrap();
    q.push_at(c, 90).unwrap();
    let drained = q.drain_ordered();
    let bodies: Vec<u8> = drained.iter().map(|e| e.body[0]).collect();
    assert_eq!(bodies, vec![3, 2, 1]);
}

#[test]
fn aging_comparer_promotes_old_envelopes() {
    let mut q = OutboundPriorityQueue::with_comparer(AgingWireComparer::new(100), 0);
    let mut old_low = envelope_with_priority(Priority::low());
    old_low.body = vec![1];
    let mut fresh_critical = envelope_with_priority(Priority::critical());
    fresh_critical.body = vec![2];
    q.push_at(old_low, 0).unwrap();
    q.push_at(fresh_critical, 950).unwrap();
    // At 1000 the low envelope has waited 1000 >= 100, the critical one only 50.
    assert_eq!(q.pop_at(1000).unwrap().body, vec![1]);
    assert_eq!(q.pop_at(1000).unwrap().body, vec![2]);
}

#[test]
fn aging_comparer_orders_fresh_by_priority() {
    let aging = AgingWireComparer::new(1_000);
    let low = EnvelopeMetadata { priority: 192, enqueued_at: 10 };
    let high = EnvelopeMetadata { priority: 64, enqueued_at: 20 };
    assert_eq!(aging.compare(&high, &low, 30), EnvelopeOrder::Less);
    assert_eq!(aging.compare(&low, &high, 30), EnvelopeOrder::Greater);
    // Both aged: older first.
    assert_eq!(aging.compare(&low, &high, 5_000), EnvelopeOrder::Less);
    // Clock reading before the enqueue time counts as no wait.
    let later = EnvelopeMetadata { priority: 0, enqueued_at: 9_000 };
    assert_eq!(aging.compare(&later, &low, 5_000), EnvelopeOrder::Greater);
    assert_eq!(StrictPriorityWireComparer.compare(&low, &low, 0), EnvelopeOrder::Equal);
    assert_eq!(low.priority(), 192);
    assert_eq!(high.enqueued_at(), 20);
}

#[test]
fn empty_priority_header_defaults_to_normal() {
    let mut e = envelope_no_priority();
    e.headers.insert("dactor.Priority".to_string(), vec![]);
    let mut q = OutboundPriorityQueue::new();
    q.push(e).unwrap();
    assert_eq!(q.lane_counts(), [0, 0, 1, 0, 0]);
}

#[test]
fn rejected_envelope_is_handed_back() {
    let mut q = OutboundPriorityQueue::with_config(1, 0);
    q.push(stream_envelope(1)).unwrap();
    let rejected = q.push(stream_envelope(2)).unwrap_err();
    assert_eq!(rejected.body, vec![2]);
    assert_eq!(q.fifo_count(), 1);
}

#[test]
fn default_queue_is_empty_lane_mode() {
    let q: OutboundPriorityQueue = Default::default();
    assert!(q.is_empty());
    assert_eq!(q.comparer_count(), 0);
}

#[test]
fn popping_until_empty_returns_every_envelope_once() {
    let bodies_in: Vec<u8> = vec![10, 200, 10, 70, 255, 130, 70, 0];
    let mut lane_q = OutboundPriorityQueue::with_config(0, 2);
    let mut cmp_q = OutboundPriorityQueue::with_comparer(StrictPriorityWireComparer, 0);
    for (i, p) in bodies_in.iter().enumerate() {
        lane_q.push(envelope_with_priority(Priority(*p))).unwrap();
        cmp_q.push(envelope_with_priority(Priority(*p))).unwrap();
        if i % 3 == 0 {
            lane_q.push(stream_envelope(100 + i as u8)).unwrap();
            cmp_q.push(stream_envelope(100 + i as u8)).unwrap();
        }
    }
    let mut expected: Vec<u8> = bodies_in.clone();
    expected.extend([100u8, 103, 106]);
    expected.sort();
    for q in [&mut lane_q, &mut cmp_q] {
        let mut out: Vec<u8> = Vec::new();
        while let Some(e) = q.pop() {
            out.push(e.body[0]);
        }
        out.sort();
        assert_eq!(out, expected);
        assert!(q.is_empty());
        assert!(q.pop().is_none());
    }
}

#[test]
fn comparer_drain_keeps_entry_order_among_equal_priorities() {
    let mut q = OutboundPriorityQueue::with_comparer(StrictPriorityWireComparer, 0);
    let prios = [128u8, 64, 128, 64, 128];
    for (i, p) in prios.iter().enumerate() {
        let mut e = envelope_with_priority(Priority(*p));
        e.body = vec![i as u8];
        q.push_at(e, 10 * i as u128).unwrap();
    }
    let drained: Vec<u8> = q.drain_ordered().iter().map(|e| e.body[0]).collect();
    assert_eq!(drained, vec![1, 3, 0, 2, 4]);
}

#[test]
fn comparer_pop_takes_earliest_most_urgent() {
    let mut q = OutboundPriorityQueue::with_comparer(StrictPriorityWireComparer, 0);
    let prios = [5u8, 3, 7, 3];
    for (i, p) in prios.iter().enumerate() {
        let mut e = envelope_with_priority(Priority(*p));
        e.body = vec![i as u8];
        q.push_at(e, 0).unwrap();
    }
    assert_eq!(q.pop_at(1).unwrap().body, vec![1]);
    assert_eq!(q.pop_at(1).unwrap().body, vec![3]);
    assert_eq!(q.pop_at(1).unwrap().body, vec![0]);
    assert_eq!(q.pop_at(1).unwrap().body, vec![2]);
}

#[test]
fn fairness_window_bounds_runs_from_one_lane() {
    let max = 3;
    let mut q = OutboundPriorityQueue::with_config(0, max);
    for _ in 0..10 {
        q.push(envelope_with_priority(Priority(10))).unwrap();
    }
    q.push(envelope_with_priority(Priority(200))).unwrap();
    q.push(envelope_with_priority(Priority(201))).unwrap();
    q.push(stream_envelope(1)).unwrap();
    q.push(stream_envelope(2)).unwrap();
    let mut run = 0;
    let mut lane3_left = 2;
    while let Some(e) = q.pop() {
        if e.send_mode != SendMode::Tell {
            continue;
        }
        if e.body[0] == 10 {
            run += 1;
            if lane3_left > 0 {
                assert!(run <= max);
            }
        } else {
            run = 0;
            lane3_left -= 1;
        }
    }
    assert_eq!(lane3_left, 0);
}

#[test]
fn priority_is_first_byte_of_header() {
    let mut e = envelope_no_priority();
    e.headers.insert("dactor.Priority".to_string(), vec![200, 1]);
    let mut q = OutboundPriorityQueue::new();
    q.push(e).unwrap();
    q.push(envelope_no_priority()).unwrap();
    assert_eq!(q.lane_counts(), [0, 0, 1, 1, 0]);
}
