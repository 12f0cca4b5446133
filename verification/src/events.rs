//! Decisions of the event-stream waiter that looks for an event matching a
//! predicate before a deadline. The waiting itself (an async receive with a
//! timeout) is done by the caller, which feeds the outcomes back here.

use vstd::prelude::*;

verus! {

/// What the waiter does after a receive attempt.
#[derive(Debug, Clone, Copy, PartialEq, Eq, Structural)]
pub enum ExpectAction {
    /// The received event matches: hand it to the caller.
    Deliver,
    /// The received event does not match: wait for the next one.
    KeepWaiting,
    /// Nothing arrived in time (or the stream ended): give up.
    GiveUp,
}

/// Time left before the deadline, if any.
pub open spec fn remaining_spec(deadline_nanos: u128, now_nanos: u128) -> Option<u128> {
    if now_nanos < deadline_nanos {
        Some((deadline_nanos - now_nanos) as u128)
    } else {
        None
    }
}

/// The decision after a receive attempt.
pub open spec fn after_receive_spec(received: Option<bool>) -> ExpectAction {
    match received {
        Some(true) => ExpectAction::Deliver,
        Some(false) => ExpectAction::KeepWaiting,
        None => ExpectAction::GiveUp,
    }
}

/// Outcome of a whole wait, driven by the two decisions above. Step `i` is
/// the clock reading at the start of the `i`-th round and the outcome of
/// that round's receive (`None`: nothing arrived in time, or the stream
/// ended; `Some(m)`: an event arrived and `m` says whether it matched).
/// The result is the index of the delivered event, or `None` when the
/// waiter gave up.
pub open spec fn expect_outcome(deadline_nanos: u128, steps: Seq<(u128, Option<bool>)>) -> Option<int>
    decreases steps.len(),
{
    if steps.len() == 0 {
        None
    } else if remaining_spec(deadline_nanos, steps[0].0) is None {
        None
    } else {
        match after_receive_spec(steps[0].1) {
            ExpectAction::Deliver => Some(0),
            ExpectAction::KeepWaiting => match expect_outcome(deadline_nanos, steps.drop_first()) {
                Some(i) => Some(i + 1),
                None => None,
            },
            ExpectAction::GiveUp => None,
        }
    }
}

/// The waiter delivers the first matching event that arrives before the
/// deadline, having dropped the non-matching events before it: it delivers
/// the event of round `i` exactly when that event matched, every earlier
/// round brought a non-matching event, and every round up to `i` began
/// before the deadline. When no round satisfies this it gives up.
pub proof fn law_expect_first_match(deadline_nanos: u128, steps: Seq<(u128, Option<bool>)>, i: int)
    ensures
        expect_outcome(deadline_nanos, steps) == Some(i) <==> {
            &&& 0 <= i < steps.len()
            &&& steps[i].1 == Some(true)
            &&& forall|j: int| 0 <= j < i ==> #[trigger] steps[j].1 == Some(false)
            &&& forall|j: int| 0 <= j <= i ==> #[trigger] steps[j].0 < deadline_nanos
        },
    decreases steps.len(),
{
    if steps.len() > 0 {
        let rest = steps.drop_first();
        law_expect_first_match(deadline_nanos, rest, i - 1);
        if 0 < i < steps.len() && steps[0].0 < deadline_nanos && steps[0].1 == Some(false) {
            assert forall|j: int| 0 <= j < rest.len() implies #[trigger] rest[j] == steps[j + 1] by {}
            if forall|j: int| 0 <= j < i - 1 ==> #[trigger] rest[j].1 == Some(false) {
                assert forall|j: int| 0 <= j < i implies #[trigger] steps[j].1 == Some(false) by {
                    if j > 0 {
                        assert(steps[j] == rest[j - 1]);
                    }
                }
            }
            if forall|j: int| 0 <= j <= i - 1 ==> #[trigger] rest[j].0 < deadline_nanos {
                assert forall|j: int| 0 <= j <= i implies #[trigger] steps[j].0 < deadline_nanos by {
                    if j > 0 {
                        assert(steps[j] == rest[j - 1]);
                    }
                }
            }
            if forall|j: int| 0 <= j < i ==> #[trigger] steps[j].1 == Some(false) {
                assert forall|j: int| 0 <= j < i - 1 implies #[trigger] rest[j].1 == Some(false) by {
                    assert(rest[j] == steps[j + 1]);
                }
            }
            if forall|j: int| 0 <= j <= i ==> #[trigger] steps[j].0 < deadline_nanos {
                assert forall|j: int| 0 <= j <= i - 1 implies #[trigger] rest[j].0 < deadline_nanos by {
                    assert(rest[j] == steps[j + 1]);
                }
            }
        }
    }
}

/// Time left before `deadline_nanos` at clock reading `now_nanos`, or
/// `None` when the deadline has passed (nothing left to wait).
pub fn expect_remaining(deadline_nanos: u128, now_nanos: u128) -> (r: Option<u128>)
    ensures
        r == remaining_spec(deadline_nanos, now_nanos),
        now_nanos < deadline_nanos ==> r == Some((deadline_nanos - now_nanos) as u128),
        now_nanos >= deadline_nanos ==> r is None,
{
    if now_nanos < deadline_nanos {
        Some(deadline_nanos - now_nanos)
    } else {
        None
    }
}

/// Decide after a receive attempt: `received` is `None` when no event came
/// in time, else whether the event satisfied the predicate.
pub fn expect_after_receive(received: Option<bool>) -> (r: ExpectAction)
    ensures
        r == after_receive_spec(received),
        received is None ==> r == ExpectAction::GiveUp,
        received == Some(true) ==> r == ExpectAction::Deliver,
        received == Some(false) ==> r == ExpectAction::KeepWaiting,
{
    match received {
        Some(true) => ExpectAction::Deliver,
        Some(false) => ExpectAction::KeepWaiting,
        None => ExpectAction::GiveUp,
    }
}

} // verus!
