//! Mathematical model of the outbound priority queue: its abstract state,
//! well-formedness, and the effect of every operation on that state.

use vstd::prelude::*;

use crate::message::{default_priority, priority_header_key};
use crate::outbound_queue::{EnvelopeMetadata, QueuedEnvelope};
use crate::remote::WireEnvelope;

verus! {

/// The priority an envelope is scheduled by: the first byte of its priority
/// header, or NORMAL when the header is absent or empty.
pub open spec fn envelope_priority(e: WireEnvelope) -> u8 {
    match e.headers.get_spec(priority_header_key()) {
        Some(b) => if b.len() > 0 {
            b[0]
        } else {
            default_priority()
        },
        None => default_priority(),
    }
}

/// Lane of a priority value: 0..=63, 64..=127, 128..=191, 192..=254, 255.
pub open spec fn lane_of(p: u8) -> int {
    if p <= 63 {
        0
    } else if p <= 127 {
        1
    } else if p <= 191 {
        2
    } else if p <= 254 {
        3
    } else {
        4
    }
}

/// A "should be dequeued before" relation on envelope metadata.
pub type Precedes = spec_fn(EnvelopeMetadata, EnvelopeMetadata) -> bool;

/// Index chosen by a left-to-right scan over the first `k` entries that
/// moves to entry `i` whenever `prec(entry i, current best)` holds.
pub open spec fn best_upto(s: Seq<QueuedEnvelope>, prec: Precedes, k: int) -> int
    decreases k,
{
    if k <= 1 {
        0
    } else {
        let b = best_upto(s, prec, k - 1);
        if prec(s[k - 1].metadata, s[b].metadata) {
            k - 1
        } else {
            b
        }
    }
}

/// Index chosen by the scan over the whole sequence.
pub open spec fn best_index(s: Seq<QueuedEnvelope>, prec: Precedes) -> int {
    best_upto(s, prec, s.len() as int)
}

/// Strict priority order used by peek.
pub open spec fn by_priority() -> Precedes {
    |a: EnvelopeMetadata, b: EnvelopeMetadata| a.priority < b.priority
}

/// Order used by drain: priority, then enqueue time.
pub open spec fn by_priority_then_age() -> Precedes {
    |a: EnvelopeMetadata, b: EnvelopeMetadata|
        a.priority < b.priority || (a.priority == b.priority && a.enqueued_at < b.enqueued_at)
}

/// The envelopes of `s` in the order obtained by repeatedly removing the
/// entry chosen by `best_index`.
pub open spec fn select_order(s: Seq<QueuedEnvelope>, prec: Precedes) -> Seq<WireEnvelope>
    decreases s.len(),
{
    if s.len() == 0 {
        Seq::empty()
    } else {
        let b = best_index(s, prec);
        if 0 <= b < s.len() {
            seq![s[b].envelope] + select_order(s.remove(b), prec)
        } else {
            Seq::empty()
        }
    }
}

/// Whether the entries' enqueue stamps never decrease in entry order.
pub open spec fn stamps_in_order(s: Seq<QueuedEnvelope>) -> bool {
    forall|i: int, j: int|
        0 <= i < j < s.len() ==> #[trigger] s[i].metadata.enqueued_at
            <= #[trigger] s[j].metadata.enqueued_at
}

/// First non-empty lane among `(start + i) % 5, (start + i + 1) % 5, ...,
/// (start + 4) % 5`.
pub open spec fn scan_lanes(lanes: Seq<Seq<WireEnvelope>>, start: int, i: int) -> Option<int>
    decreases 5 - i,
{
    if i >= 5 || i < 0 {
        None
    } else {
        let idx = (start + i) % 5;
        if lanes[idx].len() > 0 {
            Some(idx)
        } else {
            scan_lanes(lanes, start, i + 1)
        }
    }
}

/// First non-empty lane, searching cyclically from `start`.
pub open spec fn next_lane(lanes: Seq<Seq<WireEnvelope>>, start: int) -> Option<int> {
    scan_lanes(lanes, start, 0)
}

/// Abstract state of an outbound queue.
#[verifier::ext_equal]
pub struct QueueModel {
    /// Stream/feed envelopes, oldest first.
    pub stream: Seq<WireEnvelope>,
    /// The five priority lanes (lane mode), each oldest first.
    pub lanes: Seq<Seq<WireEnvelope>>,
    /// Envelopes awaiting the comparer (comparer mode), in enqueue order.
    pub sorted: Seq<QueuedEnvelope>,
    /// Capacity limit; 0 means unbounded.
    pub capacity: nat,
    /// Fairness limit on consecutive pops from one lane; 0 means strict.
    pub max_consecutive: nat,
    /// Pops taken from the current lane in a row.
    pub consecutive: nat,
    /// Lane the fair scheduler is serving.
    pub current_lane: int,
    /// Whether a comparer orders tell/ask envelopes.
    pub comparer_mode: bool,
    /// Whether the stream side takes the next turn when both sides hold
    /// envelopes (each alternation starts with the stream side).
    pub stream_turn: bool,
}

impl QueueModel {
    /// An empty queue with the given configuration.
    pub open spec fn empty(capacity: nat, max_consecutive: nat, comparer_mode: bool) -> QueueModel {
        QueueModel {
            stream: Seq::empty(),
            lanes: Seq::new(5, |i: int| Seq::<WireEnvelope>::empty()),
            sorted: Seq::empty(),
            capacity,
            max_consecutive,
            consecutive: 0,
            current_lane: 0,
            comparer_mode,
            stream_turn: true,
        }
    }

    /// Envelopes held in the lanes.
    pub open spec fn lane_len(self) -> nat {
        self.lanes[0].len() + self.lanes[1].len() + self.lanes[2].len() + self.lanes[3].len()
            + self.lanes[4].len()
    }

    /// Tell/ask envelopes held (lanes and comparer vector).
    pub open spec fn priority_len(self) -> nat {
        self.lane_len() + self.sorted.len()
    }

    /// All envelopes held.
    pub open spec fn len(self) -> nat {
        self.stream.len() + self.priority_len()
    }

    /// Whether the priority side holds an envelope.
    pub open spec fn has_priority(self) -> bool {
        if self.comparer_mode {
            self.sorted.len() > 0
        } else {
            self.lane_len() > 0
        }
    }

    /// Invariant of every reachable state.
    pub open spec fn wf(self) -> bool {
        &&& self.lanes.len() == 5
        &&& 0 <= self.current_lane < 5
        &&& self.consecutive <= self.max_consecutive
        &&& forall|i: int|
            0 <= i < self.stream.len() ==> (#[trigger] self.stream[i]).send_mode.is_stream_spec()
        &&& forall|l: int, k: int|
            0 <= l < 5 && 0 <= k < self.lanes[l].len() ==> {
                &&& !(#[trigger] self.lanes[l][k]).send_mode.is_stream_spec()
                &&& lane_of(envelope_priority(self.lanes[l][k])) == l
            }
        &&& forall|k: int|
            0 <= k < self.sorted.len() ==> {
                &&& !(#[trigger] self.sorted[k]).envelope.send_mode.is_stream_spec()
                &&& self.sorted[k].metadata.priority == envelope_priority(self.sorted[k].envelope)
            }
        &&& self.comparer_mode ==> self.lane_len() == 0
        &&& !self.comparer_mode ==> self.sorted.len() == 0
        &&& self.capacity > 0 ==> self.len() <= self.capacity
    }

    /// Whether `push` accepts another envelope.
    pub open spec fn accepts(self) -> bool {
        !(self.capacity > 0 && self.len() >= self.capacity)
    }

    /// State after an accepted push of `e` at clock reading `now`.
    pub open spec fn push_model(self, e: WireEnvelope, now: u128) -> QueueModel {
        if e.send_mode.is_stream_spec() {
            QueueModel { stream: self.stream.push(e), ..self }
        } else if self.comparer_mode {
            let q = QueuedEnvelope {
                envelope: e,
                metadata: EnvelopeMetadata { priority: envelope_priority(e), enqueued_at: now },
            };
            QueueModel { sorted: self.sorted.push(q), ..self }
        } else {
            let l = lane_of(envelope_priority(e));
            QueueModel { lanes: self.lanes.update(l, self.lanes[l].push(e)), ..self }
        }
    }

    /// Remove the oldest stream envelope.
    pub open spec fn pop_stream_model(self) -> (QueueModel, Option<WireEnvelope>) {
        if self.stream.len() == 0 {
            (self, None)
        } else {
            (QueueModel { stream: self.stream.drop_first(), ..self }, Some(self.stream[0]))
        }
    }

    /// Remove the front of lane `l`.
    pub open spec fn take_lane(self, l: int) -> (QueueModel, Option<WireEnvelope>) {
        if self.lanes[l].len() == 0 {
            (self, None)
        } else {
            (
                QueueModel { lanes: self.lanes.update(l, self.lanes[l].drop_first()), ..self },
                Some(self.lanes[l][0]),
            )
        }
    }

    /// Strict lane mode: front of the first non-empty lane.
    pub open spec fn pop_strict_model(self) -> (QueueModel, Option<WireEnvelope>) {
        match next_lane(self.lanes, 0) {
            None => (self, None),
            Some(l) => self.take_lane(l),
        }
    }

    /// Serve lane `l` after a switch: the run restarts at one pop.
    pub open spec fn switch_to(self, found: Option<int>) -> (QueueModel, Option<WireEnvelope>) {
        match found {
            None => (QueueModel { consecutive: 0, ..self }, None),
            Some(l) => {
                let (t, r) = self.take_lane(l);
                (QueueModel { current_lane: l, consecutive: 1, ..t }, r)
            },
        }
    }

    /// Fair lane mode: stay on the current lane until `max_consecutive`
    /// pops in a row, then move on cyclically to the next non-empty lane.
    pub open spec fn pop_fair_model(self) -> (QueueModel, Option<WireEnvelope>) {
        if self.consecutive >= self.max_consecutive {
            self.switch_to(next_lane(self.lanes, self.current_lane + 1))
        } else if self.lanes[self.current_lane].len() == 0 {
            self.switch_to(next_lane(self.lanes, 0))
        } else {
            let (t, r) = self.take_lane(self.current_lane);
            (QueueModel { consecutive: self.consecutive + 1, ..t }, r)
        }
    }

    /// Comparer mode: remove the entry chosen by the comparer scan.
    pub open spec fn pop_comparer_model(self, prec: Precedes) -> (QueueModel, Option<WireEnvelope>) {
        if self.sorted.len() == 0 {
            (self, None)
        } else {
            let b = best_index(self.sorted, prec);
            (QueueModel { sorted: self.sorted.remove(b), ..self }, Some(self.sorted[b].envelope))
        }
    }

    /// Take from the priority side.
    pub open spec fn pop_priority_model(self, prec: Precedes) -> (QueueModel, Option<WireEnvelope>) {
        if self.comparer_mode {
            self.pop_comparer_model(prec)
        } else if self.max_consecutive == 0 {
            self.pop_strict_model()
        } else {
            self.pop_fair_model()
        }
    }

    /// State and result of `pop` with comparer order `prec`: a lone source
    /// is drained (and the next alternation will start with the stream);
    /// when both sources hold envelopes they take turns, one envelope at a
    /// time, the stream side first.
    pub open spec fn pop_model(self, prec: Precedes) -> (QueueModel, Option<WireEnvelope>) {
        if self.len() == 0 {
            (self, None)
        } else if self.stream.len() > 0 && !self.has_priority() {
            let (t, r) = self.pop_stream_model();
            (QueueModel { stream_turn: true, ..t }, r)
        } else if self.stream.len() == 0 && self.has_priority() {
            let (t, r) = self.pop_priority_model(prec);
            (QueueModel { stream_turn: true, ..t }, r)
        } else if self.stream_turn {
            let (t, r) = self.pop_stream_model();
            (QueueModel { stream_turn: false, ..t }, r)
        } else {
            let (t, r) = self.pop_priority_model(prec);
            if r is Some {
                (QueueModel { stream_turn: true, ..t }, r)
            } else {
                let (t2, r2) = t.pop_stream_model();
                (QueueModel { stream_turn: false, ..t2 }, r2)
            }
        }
    }

    /// What `peek` shows: the oldest stream envelope, else the comparer
    /// entry of lowest priority value (first among equals), else the front
    /// of the first non-empty lane.
    pub open spec fn peek_model(self) -> Option<WireEnvelope> {
        if self.stream.len() > 0 {
            Some(self.stream[0])
        } else if self.comparer_mode {
            if self.sorted.len() == 0 {
                None
            } else {
                Some(self.sorted[best_index(self.sorted, by_priority())].envelope)
            }
        } else {
            match next_lane(self.lanes, 0) {
                Some(l) => Some(self.lanes[l][0]),
                None => None,
            }
        }
    }

    /// Lanes concatenated from most to least urgent.
    pub open spec fn lanes_in_order(self) -> Seq<WireEnvelope> {
        self.lanes[0] + self.lanes[1] + self.lanes[2] + self.lanes[3] + self.lanes[4]
    }

    /// What `drain_ordered` returns: stream envelopes first, then the
    /// priority side in order.
    pub open spec fn drain_output(self) -> Seq<WireEnvelope> {
        self.stream + if self.comparer_mode {
            select_order(self.sorted, by_priority_then_age())
        } else {
            self.lanes_in_order()
        }
    }

    /// State after `drain_ordered` or `clear`.
    pub open spec fn emptied(self) -> QueueModel {
        QueueModel {
            stream: Seq::empty(),
            lanes: Seq::new(5, |i: int| Seq::<WireEnvelope>::empty()),
            sorted: Seq::empty(),
            consecutive: 0,
            stream_turn: true,
            ..self
        }
    }
}

/// The scan always lands inside the chosen prefix.
pub proof fn lemma_best_upto_range(s: Seq<QueuedEnvelope>, prec: Precedes, k: int)
    requires
        1 <= k,
    ensures
        0 <= best_upto(s, prec, k) < k,
    decreases k,
{
    if k > 1 {
        lemma_best_upto_range(s, prec, k - 1);
    }
}

/// A lane found by the scan is a non-empty lane.
pub proof fn lemma_scan_lanes_found(lanes: Seq<Seq<WireEnvelope>>, start: int, i: int)
    requires
        lanes.len() == 5,
        start >= 0,
    ensures
        scan_lanes(lanes, start, i) matches Some(l) ==> 0 <= l < 5 && lanes[l].len() > 0,
    decreases 5 - i,
{
    if 0 <= i < 5 {
        lemma_scan_lanes_found(lanes, start, i + 1);
    }
}

/// The scan from position `i` finds a lane whenever some later position
/// holds a non-empty lane.
pub proof fn lemma_scan_lanes_complete(lanes: Seq<Seq<WireEnvelope>>, start: int, i: int, j: int)
    requires
        lanes.len() == 5,
        start >= 0,
        0 <= i <= j < 5,
        lanes[(start + j) % 5].len() > 0,
    ensures
        scan_lanes(lanes, start, i) is Some,
    decreases 5 - i,
{
    if i < j {
        lemma_scan_lanes_complete(lanes, start, i + 1, j);
    }
}

/// Searching cyclically from `start` (at most 5) finds a lane whenever some
/// lane is non-empty.
pub proof fn lemma_next_lane_complete(lanes: Seq<Seq<WireEnvelope>>, start: int, l: int)
    requires
        lanes.len() == 5,
        0 <= start <= 5,
        0 <= l < 5,
        lanes[l].len() > 0,
    ensures
        next_lane(lanes, start) is Some,
{
    let j = if l >= start % 5 {
        l - start % 5
    } else {
        l + 5 - start % 5
    };
    assert((start + j) % 5 == l);
    lemma_scan_lanes_complete(lanes, start, 0, j);
}

impl QueueModel {
    /// Removing the oldest stream envelope keeps the invariant.
    pub proof fn lemma_pop_stream_wf(self)
        requires
            self.wf(),
            self.stream.len() > 0,
        ensures
            self.pop_stream_model().0.wf(),
            self.pop_stream_model().0.len() == self.len() - 1,
            self.pop_stream_model().1 == Some(self.stream[0]),
    {
        let t = self.pop_stream_model().0;
        assert forall|i: int| 0 <= i < t.stream.len() implies (#[trigger] t.stream[i]).send_mode.is_stream_spec() by {
            assert(t.stream[i] == self.stream[i + 1]);
        }
    }

    /// Removing the front of a non-empty lane keeps the invariant.
    pub proof fn lemma_take_lane_wf(self, l: int)
        requires
            self.wf(),
            0 <= l < 5,
            self.lanes[l].len() > 0,
        ensures
            self.take_lane(l).0.wf(),
            self.take_lane(l).0.len() == self.len() - 1,
            self.take_lane(l).0.lane_len() == self.lane_len() - 1,
            self.take_lane(l).1 == Some(self.lanes[l][0]),
    {
        let t = self.take_lane(l).0;
        assert forall|m: int, k: int| 0 <= m < 5 && 0 <= k < t.lanes[m].len() implies {
            &&& !(#[trigger] t.lanes[m][k]).send_mode.is_stream_spec()
            &&& lane_of(envelope_priority(t.lanes[m][k])) == m
        } by {
            if m == l {
                assert(t.lanes[m][k] == self.lanes[m][k + 1]);
            } else {
                assert(t.lanes[m][k] == self.lanes[m][k]);
            }
        }
    }

    /// Removing any comparer entry keeps the invariant.
    pub proof fn lemma_remove_sorted_wf(self, b: int)
        requires
            self.wf(),
            0 <= b < self.sorted.len(),
        ensures
            (QueueModel { sorted: self.sorted.remove(b), ..self }).wf(),
            (QueueModel { sorted: self.sorted.remove(b), ..self }).len() == self.len() - 1,
    {
        let t = QueueModel { sorted: self.sorted.remove(b), ..self };
        assert forall|k: int| 0 <= k < t.sorted.len() implies {
            &&& !(#[trigger] t.sorted[k]).envelope.send_mode.is_stream_spec()
            &&& t.sorted[k].metadata.priority == envelope_priority(t.sorted[k].envelope)
        } by {
            if k < b {
                assert(t.sorted[k] == self.sorted[k]);
            } else {
                assert(t.sorted[k] == self.sorted[k + 1]);
            }
        }
    }
}

/// Removing an entry keeps the stamps of the others in order.
pub proof fn lemma_remove_keeps_stamps_in_order(s: Seq<QueuedEnvelope>, b: int)
    requires
        stamps_in_order(s),
        0 <= b < s.len(),
    ensures
        stamps_in_order(s.remove(b)),
{
    let t = s.remove(b);
    assert forall|i: int, j: int| 0 <= i < j < t.len() implies #[trigger] t[i].metadata.enqueued_at
        <= #[trigger] t[j].metadata.enqueued_at by {
        let i0 = if i < b { i } else { i + 1 };
        let j0 = if j < b { j } else { j + 1 };
        assert(t[i] == s[i0]);
        assert(t[j] == s[j0]);
    }
}

/// In lane mode `pop` does not depend on the comparer order.
pub proof fn lemma_pop_model_lane_mode_order_free(s: QueueModel, p1: Precedes, p2: Precedes)
    requires
        !s.comparer_mode,
    ensures
        s.pop_model(p1) == s.pop_model(p2),
{
    assert(s.pop_priority_model(p1) == s.pop_priority_model(p2));
}

/// A pop keeps the stamps of the comparer entries in order.
pub proof fn lemma_pop_keeps_stamps_in_order(s: QueueModel, p: Precedes)
    requires
        stamps_in_order(s.sorted),
    ensures
        stamps_in_order(s.pop_model(p).0.sorted),
{
    if s.comparer_mode && s.sorted.len() > 0 {
        lemma_best_upto_range(s.sorted, p, s.sorted.len() as int);
        lemma_remove_keeps_stamps_in_order(s.sorted, best_index(s.sorted, p));
        let t = s.pop_priority_model(p).0;
        let t2 = t.pop_stream_model().0;
        assert(t2.sorted == t.sorted);
    }
    let t = s.pop_priority_model(p).0;
    assert(t.pop_stream_model().0.sorted == t.sorted);
    assert(s.pop_stream_model().0.sorted == s.sorted);
}

} // verus!
