//! Per-destination outbound priority queue for remote messages.
//!
//! [`OutboundPriorityQueue`] sorts outbound [`WireEnvelope`]s by priority,
//! ensuring high-priority messages are transmitted first.
//!
//! Stream and feed items (`SendMode::Expand` / `SendMode::Reduce`) bypass
//! the priority scheduling and are always sent in exact enqueue order.
//! Stream and priority messages are interleaved during dequeue so that
//! neither starves the other.
//!
//! Modes:
//! - lane mode (default): five fixed lanes (Critical/High/Normal/Low/Background),
//!   optionally with a fairness limit on consecutive pops from one lane;
//! - comparer mode: a [`WireEnvelopeComparer`] chooses the next envelope.

use std::collections::VecDeque;

use vstd::prelude::*;

use crate::clock::nanos_since;
use crate::outbound_model::{
    best_index, best_upto, by_priority, by_priority_then_age, envelope_priority, lane_of,
    lemma_pop_keeps_stamps_in_order, lemma_pop_model_lane_mode_order_free, lemma_scan_lanes_found,
    next_lane, scan_lanes, select_order, stamps_in_order, Precedes, QueueModel,
};
use crate::remote::WireEnvelope;

verus! {

/// Metadata for priority comparison. The comparer sees priority and
/// enqueue time (nanoseconds on the queue's clock) but not the body.
#[derive(Debug, Clone, Copy)]
pub struct EnvelopeMetadata {
    pub priority: u8,
    pub enqueued_at: u128,
}

impl EnvelopeMetadata {
    /// Priority value (0-255, lower = higher urgency).
    pub fn priority(&self) -> (r: u8)
        ensures
            r == self.priority,
    {
        self.priority
    }

    /// When the envelope was enqueued, in nanoseconds on the queue's clock.
    pub fn enqueued_at(&self) -> (r: u128)
        ensures
            r == self.enqueued_at,
    {
        self.enqueued_at
    }
}

/// Result of comparing two envelopes: `Less` means "dequeue the first one
/// before the second".
#[derive(Debug, Clone, Copy, PartialEq, Eq, Structural)]
pub enum EnvelopeOrder {
    Less,
    Equal,
    Greater,
}

/// Three-way comparison of two integers.
pub open spec fn order_of(x: int, y: int) -> EnvelopeOrder {
    if x < y {
        EnvelopeOrder::Less
    } else if x == y {
        EnvelopeOrder::Equal
    } else {
        EnvelopeOrder::Greater
    }
}

fn order_u8(x: u8, y: u8) -> (r: EnvelopeOrder)
    ensures
        r == order_of(x as int, y as int),
{
    if x < y {
        EnvelopeOrder::Less
    } else if x == y {
        EnvelopeOrder::Equal
    } else {
        EnvelopeOrder::Greater
    }
}

fn order_u128(x: u128, y: u128) -> (r: EnvelopeOrder)
    ensures
        r == order_of(x as int, y as int),
{
    if x < y {
        EnvelopeOrder::Less
    } else if x == y {
        EnvelopeOrder::Equal
    } else {
        EnvelopeOrder::Greater
    }
}

/// Custom ordering for outbound envelopes.
///
/// `now` is read once per `pop()` for consistent ordering.
/// Return `Less` if `a` should be dequeued first.
pub trait WireEnvelopeComparer: Send + Sync + 'static {
    spec fn compare_spec(&self, a: EnvelopeMetadata, b: EnvelopeMetadata, now: u128) -> EnvelopeOrder;

    fn compare(&self, a: &EnvelopeMetadata, b: &EnvelopeMetadata, now: u128) -> (r: EnvelopeOrder)
        ensures
            r == self.compare_spec(*a, *b, now),
    ;
}

/// Default: lower numeric priority = dequeued first.
pub struct StrictPriorityWireComparer;

impl WireEnvelopeComparer for StrictPriorityWireComparer {
    open spec fn compare_spec(&self, a: EnvelopeMetadata, b: EnvelopeMetadata, now: u128) -> EnvelopeOrder {
        order_of(a.priority as int, b.priority as int)
    }

    fn compare(&self, a: &EnvelopeMetadata, b: &EnvelopeMetadata, now: u128) -> (r: EnvelopeOrder) {
        order_u8(a.priority, b.priority)
    }
}

/// Whether an envelope enqueued at `at` has waited at least `max_age` by
/// `now` (elapsed time saturates at zero).
pub open spec fn is_aged(now: u128, at: u128, max_age: u128) -> bool {
    (if now >= at {
        now - at
    } else {
        0
    }) >= max_age
}

/// Age-aware: promotes envelopes that waited at least `max_age_nanos`.
/// Among aged envelopes, older wins (FIFO). Among fresh envelopes, lower
/// priority value wins.
pub struct AgingWireComparer {
    pub max_age_nanos: u128,
}

impl AgingWireComparer {
    pub fn new(max_age_nanos: u128) -> (r: Self)
        ensures
            r.max_age_nanos == max_age_nanos,
    {
        AgingWireComparer { max_age_nanos }
    }
}

impl WireEnvelopeComparer for AgingWireComparer {
    open spec fn compare_spec(&self, a: EnvelopeMetadata, b: EnvelopeMetadata, now: u128) -> EnvelopeOrder {
        let a_aged = is_aged(now, a.enqueued_at, self.max_age_nanos);
        let b_aged = is_aged(now, b.enqueued_at, self.max_age_nanos);
        if a_aged && !b_aged {
            EnvelopeOrder::Less
        } else if !a_aged && b_aged {
            EnvelopeOrder::Greater
        } else if a_aged && b_aged {
            order_of(a.enqueued_at as int, b.enqueued_at as int)
        } else {
            order_of(a.priority as int, b.priority as int)
        }
    }

    fn compare(&self, a: &EnvelopeMetadata, b: &EnvelopeMetadata, now: u128) -> (r: EnvelopeOrder) {
        let a_waited = if now >= a.enqueued_at { now - a.enqueued_at } else { 0 };
        let b_waited = if now >= b.enqueued_at { now - b.enqueued_at } else { 0 };
        let a_aged = a_waited >= self.max_age_nanos;
        let b_aged = b_waited >= self.max_age_nanos;
        if a_aged && !b_aged {
            EnvelopeOrder::Less
        } else if !a_aged && b_aged {
            EnvelopeOrder::Greater
        } else if a_aged && b_aged {
            order_u128(a.enqueued_at, b.enqueued_at)
        } else {
            order_u8(a.priority, b.priority)
        }
    }
}

/// Header key carrying the priority.
const PRIORITY_HEADER_NAME: &'static str = "dactor.Priority";

/// Priority of an envelope: first byte of its priority header, else NORMAL.
fn extract_priority(envelope: &WireEnvelope) -> (r: u8)
    ensures
        r == envelope_priority(*envelope),
{
    let name = PRIORITY_HEADER_NAME;
    proof {
        reveal_strlit("dactor.Priority");
        assert(name@ =~= crate::message::priority_header_key());
    }
    match envelope.headers.get(name) {
        Some(bytes) => if bytes.len() > 0 {
            bytes[0]
        } else {
            128
        },
        None => 128,
    }
}

/// Lane of a priority value.
fn lane_index_from_priority(priority: u8) -> (r: usize)
    ensures
        r == lane_of(priority),
        r < 5,
{
    if priority <= 63 {
        0
    } else if priority <= 127 {
        1
    } else if priority <= 191 {
        2
    } else if priority <= 254 {
        3
    } else {
        4
    }
}

/// Whether `a` goes before `b` by priority, or (with `by_age`) by priority
/// then enqueue time.
fn key_precedes(a: &EnvelopeMetadata, b: &EnvelopeMetadata, by_age: bool) -> (r: bool)
    ensures
        r == (if by_age {
            by_priority_then_age()
        } else {
            by_priority()
        })(*a, *b),
{
    if by_age {
        a.priority < b.priority || (a.priority == b.priority && a.enqueued_at < b.enqueued_at)
    } else {
        a.priority < b.priority
    }
}

/// Index chosen by a left-to-right scan by priority (and, with `by_age`,
/// enqueue time): the first entry with the smallest key.
fn scan_by_key(s: &Vec<QueuedEnvelope>, by_age: bool) -> (b: usize)
    requires
        s.len() > 0,
    ensures
        b == best_index(
            s@,
            if by_age {
                by_priority_then_age()
            } else {
                by_priority()
            },
        ),
        b < s.len(),
{
    let ghost prec = if by_age {
        by_priority_then_age()
    } else {
        by_priority()
    };
    let n = s.len();
    let mut best: usize = 0;
    let mut i: usize = 1;
    while i < n
        invariant
            1 <= i <= n,
            n == s@.len(),
            best < i,
            best == best_upto(s@, prec, i as int),
            prec == (if by_age {
                by_priority_then_age()
            } else {
                by_priority()
            }),
        decreases n - i,
    {
        if key_precedes(&s[i].metadata, &s[best].metadata, by_age) {
            best = i;
        }
        i = i + 1;
    }
    best
}

/// Move every envelope of `from`, oldest first, to the end of `into`.
fn move_all(from: &mut VecDeque<WireEnvelope>, into: &mut Vec<WireEnvelope>)
    ensures
        final(into)@ == old(into)@ + old(from)@,
        final(from)@ == Seq::<WireEnvelope>::empty(),
{
    while from.len() > 0
        invariant
            into@ + from@ == old(into)@ + old(from)@,
        decreases from@.len(),
    {
        let ghost before_into = into@;
        let ghost before_from = from@;
        match from.pop_front() {
            Some(e) => {
                into.push(e);
                assert(into@ + from@ =~= before_into + before_from);
            },
            None => {},
        }
    }
    assert(into@ =~= old(into)@ + old(from)@);
}

/// Move every comparer entry to the end of `into`, in the order of
/// repeatedly taking the first entry with the smallest (priority, enqueue
/// time): a stable sort by that key.
fn move_sorted(sorted: &mut Vec<QueuedEnvelope>, into: &mut Vec<WireEnvelope>)
    ensures
        final(into)@ == old(into)@ + select_order(old(sorted)@, by_priority_then_age()),
        final(sorted)@ == Seq::<QueuedEnvelope>::empty(),
{
    let ghost key = by_priority_then_age();
    while sorted.len() > 0
        invariant
            into@ + select_order(sorted@, key) == old(into)@ + select_order(old(sorted)@, key),
            key == by_priority_then_age(),
        decreases sorted@.len(),
    {
        let ghost before_into = into@;
        let ghost before_sorted = sorted@;
        let b = scan_by_key(sorted, true);
        let q = sorted.remove(b);
        into.push(q.envelope);
        assert(select_order(before_sorted, key) == seq![before_sorted[b as int].envelope] + select_order(
            before_sorted.remove(b as int),
            key,
        ));
        assert(into@ + select_order(sorted@, key) =~= before_into + select_order(before_sorted, key));
    }
    assert(sorted@ =~= Seq::<QueuedEnvelope>::empty());
    assert(into@ =~= old(into)@ + select_order(old(sorted)@, key));
}

/// An envelope held in comparer mode with its metadata.
pub struct QueuedEnvelope {
    pub envelope: WireEnvelope,
    pub metadata: EnvelopeMetadata,
}


/// Per-destination outbound priority queue.
pub struct OutboundPriorityQueue<C = StrictPriorityWireComparer> {
    // Lane mode
    lanes: [VecDeque<WireEnvelope>; 5],
    max_consecutive: usize,
    consecutive_from_lane: usize,
    current_lane: usize,
    // Comparer mode
    comparer: Option<C>,
    sorted: Vec<QueuedEnvelope>,
    epoch: Option<std::time::Instant>,
    // Latest clock reading handed out (never decreases)
    latest_reading: u128,
    // Stream FIFO: stream/feed items bypass priority scheduling
    stream_fifo: VecDeque<WireEnvelope>,
    // Whether the stream side goes next when both sides hold envelopes
    stream_turn: bool,
    // Shared
    total: usize,
    capacity: usize,
}

impl<C> View for OutboundPriorityQueue<C> {
    type V = QueueModel;

    closed spec fn view(&self) -> QueueModel {
        QueueModel {
            stream: self.stream_fifo@,
            lanes: self.lanes@.map_values(|d: VecDeque<WireEnvelope>| d@),
            sorted: self.sorted@,
            capacity: self.capacity as nat,
            max_consecutive: self.max_consecutive as nat,
            consecutive: self.consecutive_from_lane as nat,
            current_lane: self.current_lane as int,
            comparer_mode: self.comparer is Some,
            stream_turn: self.stream_turn,
        }
    }
}

impl<C> OutboundPriorityQueue<C> {
    /// Invariant of every queue: its model is well formed and the counter
    /// of held envelopes is exact.
    pub closed spec fn wf(&self) -> bool {
        &&& self@.wf()
        &&& self.total == self@.len()
        &&& self.lanes@.len() == 5
        &&& forall|k: int|
            0 <= k < self@.sorted.len() ==> (#[trigger] self@.sorted[k]).metadata.enqueued_at
                <= self.latest_reading
    }

    /// The latest reading of this queue's clock: every comparer entry was
    /// stamped no later than it.
    pub closed spec fn clock_reading(&self) -> u128 {
        self.latest_reading
    }

    /// No comparer entry of a valid queue is stamped later than the latest
    /// clock reading.
    pub proof fn lemma_stamps_not_after_reading(&self)
        requires
            self.wf(),
        ensures
            forall|k: int|
                0 <= k < self@.sorted.len() ==> (#[trigger] self@.sorted[k]).metadata.enqueued_at
                    <= self.clock_reading(),
    {
    }

    /// A valid queue has a well-formed model whose size fits a `usize`.
    pub proof fn lemma_model_wf(&self)
        requires
            self.wf(),
        ensures
            self@.wf(),
            self@.len() <= usize::MAX,
    {
    }

    /// The comparer of comparer mode.
    pub closed spec fn comparer_spec(&self) -> Option<C> {
        self.comparer
    }
}

impl OutboundPriorityQueue<StrictPriorityWireComparer> {
    /// Lane mode with no capacity limit.
    pub fn new() -> (r: Self)
        ensures
            r.wf(),
            r@ == QueueModel::empty(0, 0, false),
            r.comparer_spec() is None,
    {
        Self::with_config(0, 0)
    }

    /// Lane mode with capacity (0 = unbounded) and fairness limit
    /// (0 = strict priority).
    pub fn with_config(capacity: usize, max_consecutive: usize) -> (r: Self)
        ensures
            r.wf(),
            r@ == QueueModel::empty(capacity as nat, max_consecutive as nat, false),
            r.comparer_spec() is None,
    {
        let r = OutboundPriorityQueue {
            lanes: [VecDeque::new(), VecDeque::new(), VecDeque::new(), VecDeque::new(), VecDeque::new()],
            max_consecutive,
            consecutive_from_lane: 0,
            current_lane: 0,
            comparer: None,
            sorted: Vec::new(),
            epoch: None,
            latest_reading: 0,
            stream_fifo: VecDeque::new(),
            stream_turn: true,
            total: 0,
            capacity,
        };
        proof {
            assert(r@.lanes =~= Seq::new(5, |i: int| Seq::<WireEnvelope>::empty()));
        }
        r
    }
}

impl Default for OutboundPriorityQueue<StrictPriorityWireComparer> {
    fn default() -> (r: Self)
        ensures
            r.wf(),
            r@ == QueueModel::empty(0, 0, false),
    {
        Self::new()
    }
}

impl<C: WireEnvelopeComparer> OutboundPriorityQueue<C> {
    /// The comparer's "dequeue first" relation at clock reading `now`.
    pub open spec fn precedes(&self, now: u128) -> Precedes {
        |a: EnvelopeMetadata, b: EnvelopeMetadata|
            self.comparer_spec().unwrap().compare_spec(a, b, now) is Less
    }

    /// Comparer mode with capacity (0 = unbounded).
    pub fn with_comparer(comparer: C, capacity: usize) -> (r: Self)
        ensures
            r.wf(),
            r@ == QueueModel::empty(capacity as nat, 0, true),
            r.comparer_spec() == Some(comparer),
    {
        let r = OutboundPriorityQueue {
            lanes: [VecDeque::new(), VecDeque::new(), VecDeque::new(), VecDeque::new(), VecDeque::new()],
            max_consecutive: 0,
            consecutive_from_lane: 0,
            current_lane: 0,
            comparer: Some(comparer),
            sorted: Vec::new(),
            epoch: Some(std::time::Instant::now()),
            latest_reading: 0,
            stream_fifo: VecDeque::new(),
            stream_turn: true,
            total: 0,
            capacity,
        };
        proof {
            assert(r@.lanes =~= Seq::new(5, |i: int| Seq::<WireEnvelope>::empty()));
        }
        r
    }

    fn is_comparer_mode(&self) -> (r: bool)
        ensures
            r == self@.comparer_mode,
    {
        self.comparer.is_some()
    }

    /// Read this queue's clock, in nanoseconds since the queue was made (0
    /// in lane mode, which has no clock). `Instant` readings never go
    /// backwards, so at run time the reading is the raw one; keeping the
    /// latest reading makes that guarantee part of the contract: a reading
    /// is never earlier than the one before it.
    fn clock_nanos(&mut self) -> (r: u128)
        requires
            old(self).wf(),
        ensures
            final(self).wf(),
            final(self)@ == old(self)@,
            final(self).comparer_spec() == old(self).comparer_spec(),
            r >= old(self).clock_reading(),
            final(self).clock_reading() == r,
    {
        let raw = match &self.epoch {
            Some(epoch) => nanos_since(epoch),
            None => 0,
        };
        if raw > self.latest_reading {
            self.latest_reading = raw;
        }
        self.latest_reading
    }

    /// Enqueue an envelope, stamping it with clock reading `now` in comparer
    /// mode. Returns `Err(envelope)` if at capacity.
    ///
    /// Stream/feed envelopes go into the FIFO; tell/ask envelopes go into
    /// their priority lane, or into the comparer vector.
    pub fn push_at(&mut self, envelope: WireEnvelope, now: u128) -> (r: Result<(), WireEnvelope>)
        requires
            old(self).wf(),
            old(self)@.capacity > 0 || old(self)@.len() < usize::MAX,
        ensures
            final(self).wf(),
            final(self).comparer_spec() == old(self).comparer_spec(),
            match r {
                Ok(()) => old(self)@.accepts() && final(self)@ == old(self)@.push_model(envelope, now),
                Err(e) => !old(self)@.accepts() && e == envelope && final(self)@ == old(self)@,
            },
            final(self).clock_reading() == if r is Ok && old(self)@.comparer_mode
                && !envelope.send_mode.is_stream_spec() && now > old(self).clock_reading() {
                now
            } else {
                old(self).clock_reading()
            },
    {
        if self.capacity > 0 && self.total >= self.capacity {
            return Err(envelope);
        }
        let ghost old_model = self@;
        let ghost e = envelope;
        if envelope.send_mode.is_stream() {
            self.stream_fifo.push_back(envelope);
            proof {
                assert(self@.lanes =~= old_model.lanes);
            }
        } else if self.is_comparer_mode() {
            let metadata = EnvelopeMetadata { priority: extract_priority(&envelope), enqueued_at: now };
            self.sorted.push(QueuedEnvelope { envelope, metadata });
            if now > self.latest_reading {
                self.latest_reading = now;
            }
            proof {
                assert(self@.lanes =~= old_model.lanes);
                assert forall|k: int| 0 <= k < self@.sorted.len() implies (#[trigger] self@.sorted[k]).metadata.enqueued_at
                    <= self.latest_reading by {
                    if k < old_model.sorted.len() {
                        assert(self@.sorted[k] == old_model.sorted[k]);
                    }
                }
            }
        } else {
            let lane = lane_index_from_priority(extract_priority(&envelope));
            self.lanes[lane].push_back(envelope);
            proof {
                assert(self@.lanes =~= old_model.lanes.update(lane as int, old_model.lanes[lane as int].push(e)));
                assert forall|l: int, k: int| 0 <= l < 5 && 0 <= k < self@.lanes[l].len() implies {
                    &&& !(#[trigger] self@.lanes[l][k]).send_mode.is_stream_spec()
                    &&& lane_of(envelope_priority(self@.lanes[l][k])) == l
                } by {
                    if l == lane as int && k == old_model.lanes[l].len() {
                    } else {
                        assert(self@.lanes[l][k] == old_model.lanes[l][k]);
                    }
                }
            }
        }
        self.total = self.total + 1;
        Ok(())
    }

    /// Enqueue an envelope. Returns `Err(envelope)` if at capacity.
    pub fn push(&mut self, envelope: WireEnvelope) -> (r: Result<(), WireEnvelope>)
        requires
            old(self).wf(),
            old(self)@.capacity > 0 || old(self)@.len() < usize::MAX,
        ensures
            final(self).wf(),
            final(self).comparer_spec() == old(self).comparer_spec(),
            match r {
                Ok(()) => old(self)@.accepts() && exists|now: u128|
                    final(self)@ == old(self)@.push_model(envelope, now),
                Err(e) => !old(self)@.accepts() && e == envelope && final(self)@ == old(self)@,
            },
            final(self).clock_reading() >= old(self).clock_reading(),
            r is Ok ==> final(self)@ == old(self)@.push_model(envelope, final(self).clock_reading()),
            stamps_in_order(old(self)@.sorted) ==> stamps_in_order(final(self)@.sorted),
    {
        let ghost before = self@;
        let now = if self.is_comparer_mode() {
            self.clock_nanos()
        } else {
            0
        };
        proof {
            self.lemma_stamps_not_after_reading();
        }
        let r = self.push_at(envelope, now);
        proof {
            if r is Ok {
                assert(before.push_model(envelope, now) == before.push_model(
                    envelope,
                    self.clock_reading(),
                ));
            }
            if stamps_in_order(before.sorted) && r is Ok && before.comparer_mode
                && !envelope.send_mode.is_stream_spec() {
                let t = self@.sorted;
                assert forall|i: int, j: int| 0 <= i < j < t.len() implies #[trigger] t[i].metadata.enqueued_at
                    <= #[trigger] t[j].metadata.enqueued_at by {
                    if j < before.sorted.len() {
                        assert(t[i] == before.sorted[i]);
                        assert(t[j] == before.sorted[j]);
                    } else {
                        assert(t[i] == before.sorted[i]);
                    }
                }
            }
        }
        r
    }

    pub fn len(&self) -> (r: usize)
        requires
            self.wf(),
        ensures
            r == self@.len(),
    {
        self.total
    }

    pub fn is_empty(&self) -> (r: bool)
        requires
            self.wf(),
        ensures
            r == (self@.len() == 0),
    {
        self.total == 0
    }

    /// Lane counts. All zero in comparer mode.
    pub fn lane_counts(&self) -> (r: [usize; 5])
        requires
            self.wf(),
        ensures
            forall|i: int| 0 <= i < 5 ==> #[trigger] r@[i] == self@.lanes[i].len(),
            r@.len() == 5,
    {
        [
            self.lanes[0].len(),
            self.lanes[1].len(),
            self.lanes[2].len(),
            self.lanes[3].len(),
            self.lanes[4].len(),
        ]
    }

    /// Envelopes in comparer mode's vector (0 in lane mode).
    pub fn comparer_count(&self) -> (r: usize)
        ensures
            r == self@.sorted.len(),
    {
        self.sorted.len()
    }

    /// Number of stream/feed items in the FIFO queue.
    pub fn fifo_count(&self) -> (r: usize)
        ensures
            r == self@.stream.len(),
    {
        self.stream_fifo.len()
    }

    /// Remove every envelope.
    pub fn clear(&mut self)
        requires
            old(self).wf(),
        ensures
            final(self).wf(),
            final(self).comparer_spec() == old(self).comparer_spec(),
            final(self).clock_reading() == old(self).clock_reading(),
            final(self)@ == old(self)@.emptied(),
    {
        self.lanes[0].clear();
        self.lanes[1].clear();
        self.lanes[2].clear();
        self.lanes[3].clear();
        self.lanes[4].clear();
        self.sorted.clear();
        self.stream_fifo.clear();
        self.total = 0;
        self.consecutive_from_lane = 0;
        self.stream_turn = true;
        proof {
            assert forall|j: int| 0 <= j < 5 implies #[trigger] self@.lanes[j] =~= Seq::<
                WireEnvelope,
            >::empty() by {
                assert(self@.lanes[j] == self.lanes@[j]@);
            }
            assert(self@.lanes =~= Seq::new(5, |i: int| Seq::<WireEnvelope>::empty()));
        }
    }

    fn pop_stream(&mut self) -> (r: Option<WireEnvelope>)
        requires
            old(self).wf(),
        ensures
            final(self).wf(),
            final(self).comparer_spec() == old(self).comparer_spec(),
            final(self).clock_reading() == old(self).clock_reading(),
            (final(self)@, r) == old(self)@.pop_stream_model(),
    {
        let ghost old_model = self@;
        proof {
            if old_model.stream.len() > 0 {
                old_model.lemma_pop_stream_wf();
            }
        }
        match self.stream_fifo.pop_front() {
            Some(envelope) => {
                self.total = self.total - 1;
                proof {
                    assert(self@.lanes =~= old_model.lanes);
                    assert(self@ =~= old_model.pop_stream_model().0);
                }
                Some(envelope)
            },
            None => None,
        }
    }

    /// First non-empty lane, searching cyclically from `start`.
    fn next_non_empty_lane(&self, start: usize) -> (r: Option<usize>)
        requires
            self.wf(),
            start <= 5,
        ensures
            match r {
                Some(l) => next_lane(self@.lanes, start as int) == Some(l as int) && l < 5,
                None => next_lane(self@.lanes, start as int) is None,
            },
    {
        let mut i: usize = 0;
        while i < 5
            invariant
                i <= 5,
                start <= 5,
                self.wf(),
                scan_lanes(self@.lanes, start as int, 0) == scan_lanes(self@.lanes, start as int, i as int),
            decreases 5 - i,
        {
            let idx = (start + i) % 5;
            assert(self@.lanes[idx as int] == self.lanes@[idx as int]@);
            if self.lanes[idx].len() > 0 {
                return Some(idx);
            }
            i = i + 1;
        }
        None
    }

    /// Strict lane mode: front of the first non-empty lane.
    fn pop_strict(&mut self) -> (r: Option<WireEnvelope>)
        requires
            old(self).wf(),
            !old(self)@.comparer_mode,
        ensures
            final(self).wf(),
            final(self).comparer_spec() == old(self).comparer_spec(),
            final(self).clock_reading() == old(self).clock_reading(),
            (final(self)@, r) == old(self)@.pop_strict_model(),
    {
        let ghost old_model = self@;
        let mut i: usize = 0;
        while i < 5
            invariant
                i <= 5,
                self.wf(),
                self@ == old_model,
                self.comparer_spec() == old(self).comparer_spec(),
                self.clock_reading() == old(self).clock_reading(),
                old_model == old(self)@,
                scan_lanes(old_model.lanes, 0, 0) == scan_lanes(old_model.lanes, 0, i as int),
            decreases 5 - i,
        {
            assert(self@.lanes[i as int] == self.lanes@[i as int]@);
            match self.lanes[i].pop_front() {
                Some(envelope) => {
                    proof {
                        assert((0 + i as int) % 5 == i as int);
                        old_model.lemma_take_lane_wf(i as int);
                    }
                    self.total = self.total - 1;
                    proof {
                        assert(self@.lanes =~= old_model.take_lane(i as int).0.lanes);
                        assert(self@ =~= old_model.take_lane(i as int).0);
                    }
                    return Some(envelope);
                },
                None => {
                    proof {
                        assert(self@.lanes =~= old_model.lanes);
                        assert((0 + i as int) % 5 == i as int);
                    }
                },
            }
            i = i + 1;
        }
        None
    }

    /// Fair lane mode: at most `max_consecutive` pops in a row from one
    /// lane, then the next non-empty lane (cyclically) gets a turn.
    fn pop_fair(&mut self) -> (r: Option<WireEnvelope>)
        requires
            old(self).wf(),
            !old(self)@.comparer_mode,
            old(self)@.max_consecutive > 0,
        ensures
            final(self).wf(),
            final(self).comparer_spec() == old(self).comparer_spec(),
            final(self).clock_reading() == old(self).clock_reading(),
            (final(self)@, r) == old(self)@.pop_fair_model(),
    {
        let ghost old_model = self@;
        let ghost mut switched: bool = false;
        if self.consecutive_from_lane >= self.max_consecutive {
            self.consecutive_from_lane = 0;
            let found = self.next_non_empty_lane(self.current_lane + 1);
            match found {
                None => {
                    proof {
                        assert(self@ =~= (QueueModel { consecutive: 0, ..old_model }));
                    }
                    return None;
                },
                Some(l) => {
                    self.current_lane = l;
                },
            }
            proof {
                switched = true;
            }
        } else if self.lanes[self.current_lane].len() == 0 {
            self.consecutive_from_lane = 0;
            let found = self.next_non_empty_lane(0);
            match found {
                None => {
                    proof {
                        assert(self@ =~= (QueueModel { consecutive: 0, ..old_model }));
                    }
                    return None;
                },
                Some(l) => {
                    self.current_lane = l;
                },
            }
            proof {
                switched = true;
            }
        }
        let lane = self.current_lane;
        proof {
            assert(self@.lanes == old_model.lanes);
            lemma_scan_lanes_found(old_model.lanes, old_model.current_lane + 1, 0);
            lemma_scan_lanes_found(old_model.lanes, 0, 0);
            assert(self@.lanes[lane as int] == self.lanes@[lane as int]@);
            assert(old_model.lanes[lane as int].len() > 0);
            old_model.lemma_take_lane_wf(lane as int);
        }
        let popped = self.lanes[lane].pop_front();
        match popped {
            Some(envelope) => {
                self.total = self.total - 1;
                self.consecutive_from_lane = self.consecutive_from_lane + 1;
                proof {
                    assert(self@.lanes =~= old_model.take_lane(lane as int).0.lanes);
                    if switched {
                        assert(self@ =~= (QueueModel {
                            current_lane: lane as int,
                            consecutive: 1,
                            ..old_model.take_lane(lane as int).0
                        }));
                    } else {
                        assert(self@ =~= (QueueModel {
                            consecutive: old_model.consecutive + 1,
                            ..old_model.take_lane(lane as int).0
                        }));
                    }
                }
                Some(envelope)
            },
            None => None,
        }
    }

    /// Index of the entry chosen by a left-to-right scan with the comparer.
    fn scan_comparer(&self, now: u128) -> (b: usize)
        requires
            self.wf(),
            self@.comparer_mode,
            self@.sorted.len() > 0,
        ensures
            b == best_index(self@.sorted, self.precedes(now)),
            b < self@.sorted.len(),
    {
        let ghost prec = self.precedes(now);
        let comparer = self.comparer.as_ref().unwrap();
        let n = self.sorted.len();
        let mut best: usize = 0;
        let mut i: usize = 1;
        while i < n
            invariant
                1 <= i <= n,
                n == self@.sorted.len(),
                best < i,
                best == best_upto(self@.sorted, prec, i as int),
                self.comparer == Some(*comparer),
                prec == self.precedes(now),
            decreases n - i,
        {
            let o = comparer.compare(&self.sorted[i].metadata, &self.sorted[best].metadata, now);
            if o == EnvelopeOrder::Less {
                best = i;
            }
            i = i + 1;
        }
        best
    }

    /// Comparer mode: remove the entry chosen by the comparer.
    fn pop_comparer(&mut self, now: u128) -> (r: Option<WireEnvelope>)
        requires
            old(self).wf(),
            old(self)@.comparer_mode,
        ensures
            final(self).wf(),
            final(self).comparer_spec() == old(self).comparer_spec(),
            final(self).clock_reading() == old(self).clock_reading(),
            (final(self)@, r) == old(self)@.pop_comparer_model(old(self).precedes(now)),
    {
        if self.sorted.len() == 0 {
            return None;
        }
        let ghost old_model = self@;
        let best = self.scan_comparer(now);
        proof {
            old_model.lemma_remove_sorted_wf(best as int);
        }
        let entry = self.sorted.remove(best);
        self.total = self.total - 1;
        proof {
            assert(self@.lanes =~= old_model.lanes);
            assert(self@ =~= old_model.pop_comparer_model(old(self).precedes(now)).0);
        }
        Some(entry.envelope)
    }

    /// Take from the priority side.
    fn pop_priority(&mut self, now: u128) -> (r: Option<WireEnvelope>)
        requires
            old(self).wf(),
        ensures
            final(self).wf(),
            final(self).comparer_spec() == old(self).comparer_spec(),
            final(self).clock_reading() == old(self).clock_reading(),
            (final(self)@, r) == old(self)@.pop_priority_model(old(self).precedes(now)),
    {
        if self.is_comparer_mode() {
            self.pop_comparer(now)
        } else if self.max_consecutive == 0 {
            self.pop_strict()
        } else {
            self.pop_fair()
        }
    }

    /// Whether some lane holds an envelope.
    fn any_lane_non_empty(&self) -> (r: bool)
        requires
            self.wf(),
        ensures
            r == (self@.lane_len() > 0),
    {
        assert(self@.lanes[0] == self.lanes@[0]@);
        assert(self@.lanes[1] == self.lanes@[1]@);
        assert(self@.lanes[2] == self.lanes@[2]@);
        assert(self@.lanes[3] == self.lanes@[3]@);
        assert(self@.lanes[4] == self.lanes@[4]@);
        self.lanes[0].len() > 0 || self.lanes[1].len() > 0 || self.lanes[2].len() > 0
            || self.lanes[3].len() > 0 || self.lanes[4].len() > 0
    }

    /// Dequeue the next envelope, reading the comparer's clock as `now`.
    ///
    /// Interleaves the stream FIFO and the priority side: if both hold
    /// envelopes, a stream envelope goes first, one at a time, then a
    /// priority envelope gets a turn, so neither starves the other.
    pub fn pop_at(&mut self, now: u128) -> (r: Option<WireEnvelope>)
        requires
            old(self).wf(),
        ensures
            final(self).wf(),
            final(self).comparer_spec() == old(self).comparer_spec(),
            final(self).clock_reading() == old(self).clock_reading(),
            (final(self)@, r) == old(self)@.pop_model(old(self).precedes(now)),
    {
        if self.total == 0 {
            return None;
        }
        let has_stream = self.stream_fifo.len() > 0;
        let has_priority = if self.is_comparer_mode() {
            self.sorted.len() > 0
        } else {
            self.any_lane_non_empty()
        };
        if has_stream && !has_priority {
            let r = self.pop_stream();
            self.stream_turn = true;
            return r;
        }
        if !has_stream && has_priority {
            let r = self.pop_priority(now);
            self.stream_turn = true;
            return r;
        }
        // Both sides hold envelopes: take turns, one at a time.
        if self.stream_turn {
            let r = self.pop_stream();
            self.stream_turn = false;
            r
        } else {
            match self.pop_priority(now) {
                Some(envelope) => {
                    self.stream_turn = true;
                    Some(envelope)
                },
                None => {
                    let r = self.pop_stream();
                    self.stream_turn = false;
                    r
                },
            }
        }
    }

    /// Dequeue the next envelope.
    pub fn pop(&mut self) -> (r: Option<WireEnvelope>)
        requires
            old(self).wf(),
        ensures
            final(self).wf(),
            final(self).comparer_spec() == old(self).comparer_spec(),
            exists|now: u128| (final(self)@, r) == old(self)@.pop_model(old(self).precedes(now)),
            final(self).clock_reading() >= old(self).clock_reading(),
            (final(self)@, r) == old(self)@.pop_model(old(self).precedes(final(self).clock_reading())),
            forall|k: int|
                0 <= k < old(self)@.sorted.len() ==> (#[trigger] old(self)@.sorted[k]).metadata.enqueued_at
                    <= final(self).clock_reading(),
            stamps_in_order(old(self)@.sorted) ==> stamps_in_order(final(self)@.sorted),
    {
        let ghost before = self@;
        let ghost q0 = *self;
        proof {
            self.lemma_stamps_not_after_reading();
        }
        let now = if self.is_comparer_mode() {
            self.clock_nanos()
        } else {
            0
        };
        let ghost q1 = *self;
        let r = self.pop_at(now);
        proof {
            assert(q1.precedes(now) =~= q0.precedes(now));
            if before.comparer_mode {
                assert(now == self.clock_reading());
            }
            if !before.comparer_mode {
                lemma_pop_model_lane_mode_order_free(before, q0.precedes(now), q0.precedes(self.clock_reading()));
            }
            if stamps_in_order(before.sorted) {
                lemma_pop_keeps_stamps_in_order(before, q0.precedes(now));
            }
        }
        r
    }

    /// Peek at the envelope `pop` would favour: the oldest stream
    /// envelope, else (comparer mode) the first entry of lowest priority
    /// value, else the front of the most urgent non-empty lane.
    pub fn peek(&self) -> (r: Option<&WireEnvelope>)
        requires
            self.wf(),
        ensures
            match r {
                Some(e) => self@.peek_model() == Some(*e),
                None => self@.peek_model() is None,
            },
    {
        if self.stream_fifo.len() > 0 {
            return Some(&self.stream_fifo[0]);
        }
        if self.is_comparer_mode() {
            if self.sorted.len() == 0 {
                return None;
            }
            let best = scan_by_key(&self.sorted, false);
            return Some(&self.sorted[best].envelope);
        }
        let mut i: usize = 0;
        while i < 5
            invariant
                i <= 5,
                self.wf(),
                self@.stream.len() == 0,
                !self@.comparer_mode,
                scan_lanes(self@.lanes, 0, 0) == scan_lanes(self@.lanes, 0, i as int),
            decreases 5 - i,
        {
            assert(self@.lanes[i as int] == self.lanes@[i as int]@);
            assert((0 + i as int) % 5 == i as int);
            if self.lanes[i].len() > 0 {
                assert(scan_lanes(self@.lanes, 0, i as int) == Some(i as int));
                let front = &self.lanes[i][0];
                assert(*front == self@.lanes[i as int][0]);
                assert(next_lane(self@.lanes, 0) == Some(i as int));
                return Some(front);
            }
            i = i + 1;
        }
        None
    }

    /// Drain all envelopes in order: stream/feed items first (FIFO), then
    /// tell/ask envelopes by lane, or (comparer mode) stably sorted by
    /// priority then enqueue time.
    pub fn drain_ordered(&mut self) -> (r: Vec<WireEnvelope>)
        requires
            old(self).wf(),
        ensures
            final(self).wf(),
            final(self).comparer_spec() == old(self).comparer_spec(),
            final(self).clock_reading() == old(self).clock_reading(),
            r@ == old(self)@.drain_output(),
            final(self)@ == old(self)@.emptied(),
    {
        let ghost old_model = self@;
        let mut result: Vec<WireEnvelope> = Vec::with_capacity(self.total);
        move_all(&mut self.stream_fifo, &mut result);
        if self.is_comparer_mode() {
            move_sorted(&mut self.sorted, &mut result);
            proof {
                assert forall|j: int| 0 <= j < 5 implies #[trigger] self@.lanes[j] =~= Seq::<
                    WireEnvelope,
                >::empty() by {
                    assert(self@.lanes[j] == old_model.lanes[j]);
                }
                assert(self@.lanes =~= Seq::new(5, |i: int| Seq::<WireEnvelope>::empty()));
            }
        } else {
            move_all(&mut self.lanes[0], &mut result);
            move_all(&mut self.lanes[1], &mut result);
            move_all(&mut self.lanes[2], &mut result);
            move_all(&mut self.lanes[3], &mut result);
            move_all(&mut self.lanes[4], &mut result);
            proof {
                assert forall|j: int| 0 <= j < 5 implies #[trigger] self@.lanes[j] =~= Seq::<
                    WireEnvelope,
                >::empty() by {
                    assert(self@.lanes[j] == self.lanes@[j]@);
                }
                assert(self@.lanes =~= Seq::new(5, |i: int| Seq::<WireEnvelope>::empty()));
                assert(self@.sorted =~= Seq::<QueuedEnvelope>::empty());
            }
        }
        self.total = 0;
        self.consecutive_from_lane = 0;
        self.stream_turn = true;
        proof {
            assert(result@ =~= old_model.drain_output());
        }
        result
    }
}

} // verus!
