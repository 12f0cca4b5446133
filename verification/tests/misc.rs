use dactor::events::{expect_after_receive, expect_remaining, ExpectAction};
use dactor::fault::FaultInjector;
use dactor::mailbox::{MailboxConfig, OverflowStrategy};
use dactor::message::{Message, Priority};
use dactor::remote::{SendMode, SerializationError, WireHeaders};

struct Increment(#[allow(dead_code)] u64);
impl Message for Increment {
    type Reply = ();
}

struct GetCount;
impl Message for GetCount {
    type Reply = u64;
}

struct Reset;
impl Message for Reset {
    type Reply = u64;
}

#[test]
fn test_message_reply_types() {
    fn assert_reply_unit<M: Message<Reply = ()>>() {}
    fn assert_reply_u64<M: Message<Reply = u64>>() {}

    assert_reply_unit::<Increment>();
    assert_reply_u64::<GetCount>();
    assert_reply_u64::<Reset>();
}

#[test]
fn mailbox_default_is_unbounded() {
    assert_eq!(MailboxConfig::default(), MailboxConfig::Unbounded);
    let bounded = MailboxConfig::Bounded {
        capacity: 10,
        overflow: OverflowStrategy::RejectWithError,
    };
    assert_ne!(bounded, MailboxConfig::default());
}

#[test]
fn priority_levels_and_encoding() {
    assert_eq!(Priority::critical().0, 0);
    assert_eq!(Priority::high().0, 64);
    assert_eq!(Priority::normal().0, 128);
    assert_eq!(Priority::low().0, 192);
    assert_eq!(Priority::background().0, 255);
    assert_eq!(Priority(42).to_bytes(), Some(vec![42]));
    assert_eq!(Priority(42).header_name(), "dactor.Priority");
}

#[test]
fn headers_insert_replaces_and_get_finds() {
    let mut h = WireHeaders::new();
    assert_eq!(h.get("x"), None);
    h.insert("x".to_string(), vec![1]);
    h.insert("y".to_string(), vec![2]);
    h.insert("x".to_string(), vec![3]);
    assert_eq!(h.len(), 2);
    assert_eq!(h.get("x"), Some(&vec![3]));
    assert_eq!(h.get("y"), Some(&vec![2]));
    assert_eq!(h.get("z"), None);
}

#[test]
fn send_mode_streams() {
    assert!(SendMode::Expand.is_stream());
    assert!(SendMode::Reduce.is_stream());
    assert!(!SendMode::Tell.is_stream());
    assert!(!SendMode::Ask.is_stream());
    assert_eq!(SerializationError::new("m").message, "m");
}

#[test]
fn fault_injector_tracks_faults() {
    let mut f = FaultInjector::new();
    assert!(!f.has_fault("partition", "other-node"));
    f.add_fault("partition", "other-node", 100, 1);
    f.add_fault("delay", "n2", 5, 3);
    f.add_fault("partition", "other-node", 200, 2);
    assert!(f.has_fault("partition", "other-node"));
    assert!(f.has_fault("delay", "n2"));
    assert!(!f.has_fault("delay", "other-node"));
    let mut keys = f.active_faults();
    keys.sort();
    assert_eq!(keys, vec!["delay:n2".to_string(), "partition:other-node".to_string()]);
    f.clear_all();
    assert!(f.active_faults().is_empty());
    assert!(!f.has_fault("partition", "other-node"));
    let d = FaultInjector::default();
    assert!(d.active_faults().is_empty());
}

#[test]
fn expect_decisions() {
    assert_eq!(expect_remaining(100, 40), Some(60));
    assert_eq!(expect_remaining(100, 100), None);
    assert_eq!(expect_remaining(100, 140), None);
    assert_eq!(expect_after_receive(Some(true)), ExpectAction::Deliver);
    assert_eq!(expect_after_receive(Some(false)), ExpectAction::KeepWaiting);
    assert_eq!(expect_after_receive(None), ExpectAction::GiveUp);
}

/// Runs the waiter's decisions over recorded rounds (clock reading, receive
/// outcome) and returns the index of the delivered event.
fn run_expect(deadline: u128, rounds: &[(u128, Option<bool>)]) -> Option<usize> {
    for (i, (now, received)) in rounds.iter().enumerate() {
        if expect_remaining(deadline, *now).is_none() {
            return None;
        }
        match expect_after_receive(*received) {
            ExpectAction::Deliver => return Some(i),
            ExpectAction::KeepWaiting => continue,
            ExpectAction::GiveUp => return None,
        }
    }
    None
}

#[test]
fn expect_delivers_first_match_before_deadline() {
    let rounds = [(0, Some(false)), (10, Some(false)), (20, Some(true)), (30, Some(true))];
    assert_eq!(run_expect(100, &rounds), Some(2));
    // The deadline passes before the matching event's round begins.
    assert_eq!(run_expect(15, &rounds), None);
    // The stream ends (or times out) before a match.
    assert_eq!(run_expect(100, &[(0, Some(false)), (5, None), (6, Some(true))]), None);
}
