//! Properties of the outbound queue that hold across operations.

use vstd::multiset::Multiset;
use vstd::prelude::*;

use crate::message::priority_header_key;
use crate::outbound_model::{
    best_index, best_upto, by_priority, by_priority_then_age, envelope_priority, select_order, lane_of, lemma_best_upto_range, lemma_next_lane_complete,
    lemma_scan_lanes_found, next_lane, scan_lanes, stamps_in_order, Precedes, QueueModel,
};
use crate::outbound_queue::{
    is_aged, EnvelopeMetadata, AgingWireComparer, OutboundPriorityQueue, QueuedEnvelope, StrictPriorityWireComparer,
    WireEnvelopeComparer,
};
use crate::remote::WireEnvelope;

verus! {

/// The cyclic scan from `start`, begun at offset `i`, returns the first
/// non-empty lane at an offset `>= i`; in particular it skips empty lanes
/// and, with `start == 0`, returns a lane no lower than `i`.
proof fn lemma_scan_from_zero(lanes: Seq<Seq<WireEnvelope>>, i: int)
    requires
        lanes.len() == 5,
        0 <= i,
    ensures
        scan_lanes(lanes, 0, i) matches Some(x) ==> i <= x < 5 && forall|m: int|
            i <= m < x ==> #[trigger] lanes[m].len() == 0,
    decreases 5 - i,
{
    if i < 5 {
        assert((0 + i) % 5 == i);
        lemma_scan_from_zero(lanes, i + 1);
    }
}

/// If a lane at offset `j < 4` (from `start`) is non-empty, the scan from
/// offset `i <= j` does not return the lane at offset 4.
proof fn lemma_scan_avoids_last(lanes: Seq<Seq<WireEnvelope>>, start: int, i: int, j: int)
    requires
        lanes.len() == 5,
        0 <= start,
        0 <= i <= j < 4,
        lanes[(start + j) % 5].len() > 0,
    ensures
        scan_lanes(lanes, start, i) is Some,
        scan_lanes(lanes, start, i) != Some((start + 4) % 5),
    decreases 5 - i,
{
    let idx = (start + i) % 5;
    if lanes[idx].len() > 0 {
        assert((start + i) % 5 != (start + 4) % 5);
    } else {
        assert(i != j);
        lemma_scan_avoids_last(lanes, start, i + 1, j);
    }
}

/// Some lane is non-empty when the lanes hold envelopes.
proof fn lemma_some_lane(s: QueueModel) -> (l: int)
    requires
        s.lanes.len() == 5,
        s.lane_len() > 0,
    ensures
        0 <= l < 5,
        s.lanes[l].len() > 0,
{
    if s.lanes[0].len() > 0 {
        0
    } else if s.lanes[1].len() > 0 {
        1
    } else if s.lanes[2].len() > 0 {
        2
    } else if s.lanes[3].len() > 0 {
        3
    } else {
        4
    }
}

/// Taking from the priority side of a well-formed queue that has a
/// priority envelope yields one, keeps the invariant and the stream, and
/// removes exactly one priority envelope: in comparer mode the entry the
/// scan picks, in lane mode the front of the returned lane `l`.
proof fn lemma_pop_priority(s: QueueModel, prec: Precedes) -> (l: int)
    requires
        s.wf(),
        s.has_priority(),
    ensures
        s.pop_priority_model(prec).1 is Some,
        s.pop_priority_model(prec).0.wf(),
        s.pop_priority_model(prec).0.stream == s.stream,
        s.pop_priority_model(prec).0.priority_len() == s.priority_len() - 1,
        s.pop_priority_model(prec).0.comparer_mode == s.comparer_mode,
        s.comparer_mode ==> {
            &&& 0 <= best_index(s.sorted, prec) < s.sorted.len()
            &&& s.pop_priority_model(prec).0.sorted == s.sorted.remove(best_index(s.sorted, prec))
            &&& s.pop_priority_model(prec).0.lanes == s.lanes
            &&& s.pop_priority_model(prec).1 == Some(s.sorted[best_index(s.sorted, prec)].envelope)
        },
        !s.comparer_mode ==> {
            &&& 0 <= l < 5
            &&& s.lanes[l].len() > 0
            &&& s.pop_priority_model(prec).0.lanes == s.lanes.update(l, s.lanes[l].drop_first())
            &&& s.pop_priority_model(prec).0.sorted == s.sorted
            &&& s.pop_priority_model(prec).1 == Some(s.lanes[l][0])
        },
{
    if s.comparer_mode {
        lemma_best_upto_range(s.sorted, prec, s.sorted.len() as int);
        s.lemma_remove_sorted_wf(best_upto(s.sorted, prec, s.sorted.len() as int));
        0
    } else {
        let some = lemma_some_lane(s);
        let l = if s.max_consecutive == 0 {
            lemma_next_lane_complete(s.lanes, 0, some);
            lemma_scan_lanes_found(s.lanes, 0, 0);
            next_lane(s.lanes, 0).unwrap()
        } else if s.consecutive >= s.max_consecutive {
            lemma_next_lane_complete(s.lanes, s.current_lane + 1, some);
            lemma_scan_lanes_found(s.lanes, s.current_lane + 1, 0);
            next_lane(s.lanes, s.current_lane + 1).unwrap()
        } else if s.lanes[s.current_lane].len() == 0 {
            lemma_next_lane_complete(s.lanes, 0, some);
            lemma_scan_lanes_found(s.lanes, 0, 0);
            next_lane(s.lanes, 0).unwrap()
        } else {
            s.current_lane
        };
        s.lemma_take_lane_wf(l);
        l
    }
}

/// The priority side holds an envelope exactly when it counts one.
proof fn lemma_has_priority(s: QueueModel)
    requires
        s.wf(),
    ensures
        s.has_priority() == (s.priority_len() > 0),
{
}

/// An accepted push keeps the invariant and adds exactly one envelope.
pub proof fn law_push_adds_one(s: QueueModel, e: WireEnvelope, now: u128)
    requires
        s.wf(),
        s.accepts(),
    ensures
        s.push_model(e, now).wf(),
        s.push_model(e, now).len() == s.len() + 1,
{
    let t = s.push_model(e, now);
    if !e.send_mode.is_stream_spec() && !s.comparer_mode {
        let l = lane_of(envelope_priority(e));
        assert forall|m: int, k: int| 0 <= m < 5 && 0 <= k < t.lanes[m].len() implies {
            &&& !(#[trigger] t.lanes[m][k]).send_mode.is_stream_spec()
            &&& lane_of(envelope_priority(t.lanes[m][k])) == m
        } by {
            if !(m == l && k == s.lanes[m].len()) {
                assert(t.lanes[m][k] == s.lanes[m][k]);
            }
        }
    }
}

/// An accepted push adds the envelope to exactly one place: the stream
/// FIFO for stream/feed envelopes, else the comparer vector in comparer
/// mode, else the lane of its priority; every other count stays.
pub proof fn law_push_counts(s: QueueModel, e: WireEnvelope, now: u128)
    requires
        s.wf(),
        s.accepts(),
    ensures
        e.send_mode.is_stream_spec() ==> {
            &&& s.push_model(e, now).stream == s.stream.push(e)
            &&& s.push_model(e, now).lanes == s.lanes
            &&& s.push_model(e, now).sorted == s.sorted
        },
        !e.send_mode.is_stream_spec() && s.comparer_mode ==> {
            &&& s.push_model(e, now).sorted.len() == s.sorted.len() + 1
            &&& s.push_model(e, now).sorted.last().envelope == e
            &&& s.push_model(e, now).sorted.last().metadata.priority == envelope_priority(e)
            &&& s.push_model(e, now).sorted.last().metadata.enqueued_at == now
            &&& s.push_model(e, now).stream == s.stream
            &&& s.push_model(e, now).lanes == s.lanes
        },
        !e.send_mode.is_stream_spec() && !s.comparer_mode ==> {
            &&& forall|l: int|
                0 <= l < 5 ==> #[trigger] s.push_model(e, now).lanes[l].len() == s.lanes[l].len() + (
                if l == lane_of(envelope_priority(e)) {
                    1int
                } else {
                    0int
                })
            &&& s.push_model(e, now).lanes[lane_of(envelope_priority(e))].last() == e
            &&& s.push_model(e, now).stream == s.stream
            &&& s.push_model(e, now).sorted == s.sorted
        },
        s.push_model(e, now).len() == s.len() + 1,
{
    law_push_adds_one(s, e, now);
}

/// `pop` returns nothing exactly when the queue is empty; otherwise it
/// removes exactly one envelope and keeps the invariant.
pub proof fn law_pop_removes_one(s: QueueModel, prec: Precedes)
    requires
        s.wf(),
    ensures
        s.pop_model(prec).1 is None <==> s.len() == 0,
        s.pop_model(prec).1 is Some ==> s.pop_model(prec).0.len() == s.len() - 1,
        s.pop_model(prec).0.wf(),
{
    lemma_has_priority(s);
    if s.len() > 0 {
        if s.has_priority() {
            lemma_pop_priority(s, prec);
        }
        if s.stream.len() > 0 {
            s.lemma_pop_stream_wf();
        }
    }
}

/// A pushed envelope is what `pop` returns from an empty queue.
pub proof fn law_pop_returns_pushed(s: QueueModel, e: WireEnvelope, now: u128, prec: Precedes)
    requires
        s.wf(),
        s.len() == 0,
        s.accepts(),
    ensures
        s.push_model(e, now).pop_model(prec).1 == Some(e),
        s.push_model(e, now).pop_model(prec).0.len() == 0,
{
    let t = s.push_model(e, now);
    law_push_adds_one(s, e, now);
    law_pop_removes_one(t, prec);
    lemma_has_priority(t);
    if !e.send_mode.is_stream_spec() && !s.comparer_mode {
        let l = lane_of(envelope_priority(e));
        assert(t.lanes[l][0] == e);
        assert forall|m: int| 0 <= m < 5 && m != l implies #[trigger] t.lanes[m].len() == 0 by {}
        lemma_scan_lanes_found(t.lanes, 0, 0);
        lemma_scan_lanes_found(t.lanes, t.current_lane + 1, 0);
        lemma_next_lane_complete(t.lanes, 0, l);
        lemma_next_lane_complete(t.lanes, t.current_lane + 1, l);
    }
}

/// Stream envelopes leave in enqueue order: a pop either leaves the stream
/// untouched or removes and returns its oldest envelope.
pub proof fn law_stream_fifo(s: QueueModel, prec: Precedes)
    requires
        s.wf(),
    ensures
        s.pop_model(prec).0.stream == s.stream || (s.stream.len() > 0 && s.pop_model(prec).1 == Some(
            s.stream[0],
        ) && s.pop_model(prec).0.stream == s.stream.drop_first()),
{
    lemma_has_priority(s);
    if s.len() > 0 && s.has_priority() {
        lemma_pop_priority(s, prec);
    }
}

/// Neither side starves: when both the stream and the priority side hold
/// envelopes, two consecutive pops take at least one envelope from each.
pub proof fn law_no_starvation(s: QueueModel, prec: Precedes)
    requires
        s.wf(),
        s.stream.len() > 0,
        s.priority_len() > 0,
    ensures
        s.pop_model(prec).0.pop_model(prec).0.stream.len() < s.stream.len(),
        s.pop_model(prec).0.pop_model(prec).0.priority_len() < s.priority_len(),
{
    lemma_has_priority(s);
    let t = s.pop_model(prec).0;
    law_pop_removes_one(s, prec);
    law_stream_fifo(s, prec);
    lemma_has_priority(t);
    law_pop_removes_one(t, prec);
    law_stream_fifo(t, prec);
    if s.stream_turn {
        s.lemma_pop_stream_wf();
        assert(t.priority_len() == s.priority_len());
        lemma_pop_priority(t, prec);
    } else {
        lemma_pop_priority(s, prec);
        assert(t.stream == s.stream);
        t.lemma_pop_stream_wf();
    }
}

/// When both sides hold envelopes and an alternation starts, the oldest
/// stream envelope goes first, and the next pop serves the priority side.
pub proof fn law_stream_leads_alternation(s: QueueModel, prec: Precedes)
    requires
        s.wf(),
        s.stream_turn,
        s.stream.len() > 0,
        s.priority_len() > 0,
    ensures
        s.pop_model(prec).1 == Some(s.stream[0]),
        s.pop_model(prec).0.stream == s.stream.drop_first(),
        s.pop_model(prec).0.pop_model(prec).0.stream == s.stream.drop_first(),
        s.pop_model(prec).0.pop_model(prec).0.priority_len() == s.priority_len() - 1,
{
    lemma_has_priority(s);
    s.lemma_pop_stream_wf();
    let t = s.pop_model(prec).0;
    assert(t.priority_len() == s.priority_len());
    lemma_has_priority(t);
    lemma_pop_priority(t, prec);
}

/// An alternation starts with the stream side on a fresh or emptied queue,
/// and pushes leave the turn as it was, so a queue filled from empty
/// serves a stream envelope first.
pub proof fn law_stream_turn_start(s: QueueModel, e: WireEnvelope, now: u128, capacity: nat, max_consecutive: nat, comparer_mode: bool)
    ensures
        QueueModel::empty(capacity, max_consecutive, comparer_mode).stream_turn,
        s.emptied().stream_turn,
        s.push_model(e, now).stream_turn == s.stream_turn,
{
}

/// In strict lane mode the envelope popped from the priority side is the
/// oldest envelope of the most urgent non-empty lane.
pub proof fn law_strict_most_urgent(s: QueueModel)
    requires
        s.wf(),
        !s.comparer_mode,
        s.max_consecutive == 0,
        s.lane_len() > 0,
    ensures
        s.pop_strict_model().1 matches Some(e) && forall|l: int|
            0 <= l < 5 && #[trigger] s.lanes[l].len() > 0 ==> lane_of(envelope_priority(e)) <= l
                && (lane_of(envelope_priority(e)) == l ==> e == s.lanes[l][0]),
{
    let some = lemma_some_lane(s);
    lemma_next_lane_complete(s.lanes, 0, some);
    lemma_scan_lanes_found(s.lanes, 0, 0);
    lemma_scan_from_zero(s.lanes, 0);
    let x = next_lane(s.lanes, 0).unwrap();
    assert(lane_of(envelope_priority(s.lanes[x][0])) == x);
}

/// Fairness: once a lane has been served `max_consecutive` times in a row,
/// the next lane-mode pop serves another lane whenever one is non-empty.
pub proof fn law_fair_rotation(s: QueueModel, other: int)
    requires
        s.wf(),
        !s.comparer_mode,
        s.max_consecutive > 0,
        s.consecutive >= s.max_consecutive,
        0 <= other < 5,
        other != s.current_lane,
        s.lanes[other].len() > 0,
    ensures
        s.pop_fair_model().1 is Some,
        s.pop_fair_model().0.current_lane != s.current_lane,
{
    let c = s.current_lane;
    let start = c + 1;
    let j = if other > c {
        other - c - 1
    } else {
        other + 4 - c
    };
    assert((start + j) % 5 == other);
    assert((start + 4) % 5 == c);
    lemma_scan_avoids_last(s.lanes, start, 0, j);
    lemma_scan_lanes_found(s.lanes, start, 0);
    s.lemma_take_lane_wf(next_lane(s.lanes, start).unwrap());
}

/// Whether some lane other than `l` holds an envelope.
pub open spec fn other_lane_waiting(s: QueueModel, l: int) -> bool {
    exists|o: int| 0 <= o < 5 && o != l && #[trigger] s.lanes[o].len() > 0
}

/// Whether `n` fair lane-mode pops in a row, starting from `s`, each find
/// some lane other than `l` holding an envelope and yet each return an
/// envelope of lane `l`.
pub open spec fn fair_pops_all_from(s: QueueModel, n: nat, l: int) -> bool
    decreases n,
{
    if n == 0 {
        true
    } else {
        &&& other_lane_waiting(s, l)
        &&& s.pop_fair_model().1 matches Some(e) && lane_of(envelope_priority(e)) == l
        &&& fair_pops_all_from(s.pop_fair_model().0, (n - 1) as nat, l)
    }
}

/// One fair lane-mode pop: it returns an envelope of the lane it then
/// serves; it stays on the current lane only by extending the run of pops
/// from it (below the limit) while another lane waits, and a switch starts
/// a new run of one pop.
proof fn lemma_fair_step(s: QueueModel)
    requires
        s.wf(),
        !s.comparer_mode,
        s.max_consecutive > 0,
        s.lane_len() > 0,
    ensures
        s.pop_fair_model().1 matches Some(e) && lane_of(envelope_priority(e))
            == s.pop_fair_model().0.current_lane,
        s.pop_fair_model().0.wf(),
        !s.pop_fair_model().0.comparer_mode,
        s.pop_fair_model().0.max_consecutive == s.max_consecutive,
        other_lane_waiting(s, s.current_lane) && s.pop_fair_model().0.current_lane == s.current_lane
            ==> s.consecutive < s.max_consecutive && s.pop_fair_model().0.consecutive == s.consecutive
            + 1,
        s.pop_fair_model().0.current_lane != s.current_lane ==> s.pop_fair_model().0.consecutive == 1,
{
    let prec = by_priority();
    let l = lemma_pop_priority(s, prec);
    assert(s.pop_priority_model(prec) == s.pop_fair_model());
    assert(lane_of(envelope_priority(s.lanes[l][0])) == l);
    if other_lane_waiting(s, s.current_lane) && s.consecutive >= s.max_consecutive {
        let o = choose|o: int| 0 <= o < 5 && o != s.current_lane && #[trigger] s.lanes[o].len() > 0;
        law_fair_rotation(s, o);
    }
}

/// A run of `n >= 1` fair pops all from lane `l` while another lane waits
/// is at most `max_consecutive` long, and, when `l` is already being
/// served, at most what is left of the current run.
proof fn lemma_fair_window(s: QueueModel, n: nat, l: int)
    requires
        s.wf(),
        !s.comparer_mode,
        s.max_consecutive > 0,
        n >= 1,
        fair_pops_all_from(s, n, l),
    ensures
        n <= s.max_consecutive,
        s.current_lane == l ==> s.consecutive + n <= s.max_consecutive,
    decreases n,
{
    let o = choose|o: int| 0 <= o < 5 && o != l && #[trigger] s.lanes[o].len() > 0;
    assert(s.lanes[o].len() > 0);
    lemma_fair_step(s);
    let t = s.pop_fair_model().0;
    if n > 1 {
        lemma_fair_window(t, (n - 1) as nat, l);
    }
    if s.current_lane == l {
        assert(other_lane_waiting(s, s.current_lane));
    }
}

/// Fairness over a window: in lane mode with a fairness limit, no
/// `max_consecutive + 1` pops in a row all come from one lane while another
/// lane holds an envelope; more precisely, any such run is at most
/// `max_consecutive` long, and at most what is left of the current run
/// when that lane is already being served.
pub proof fn law_fair_window(s: QueueModel, l: int, n: nat)
    requires
        s.wf(),
        !s.comparer_mode,
        s.max_consecutive > 0,
    ensures
        !fair_pops_all_from(s, s.max_consecutive + 1, l),
        fair_pops_all_from(s, n, l) ==> n <= s.max_consecutive,
        fair_pops_all_from(s, n, l) && s.current_lane == l ==> s.consecutive + n
            <= s.max_consecutive,
{
    if fair_pops_all_from(s, s.max_consecutive + 1, l) {
        lemma_fair_window(s, s.max_consecutive + 1, l);
    }
    if n >= 1 && fair_pops_all_from(s, n, l) {
        lemma_fair_window(s, n, l);
    }
}

/// In lane mode with a fairness limit, a pop either takes a stream envelope
/// and leaves the lanes and the fairness counters as they were, or does
/// exactly what a fair lane pop does to them; so stream pops in between do
/// not disturb the fairness window.
pub proof fn law_pop_is_stream_or_lane_pop(s: QueueModel, prec: Precedes)
    requires
        s.wf(),
        !s.comparer_mode,
        s.max_consecutive > 0,
    ensures
        ({
            let t = s.pop_model(prec).0;
            ||| t.lanes == s.lanes && t.consecutive == s.consecutive && t.current_lane
                == s.current_lane
            ||| t.lanes == s.pop_fair_model().0.lanes && t.consecutive == s.pop_fair_model().0.consecutive
                && t.current_lane == s.pop_fair_model().0.current_lane && s.pop_model(prec).1
                == s.pop_fair_model().1
        }),
{
    lemma_has_priority(s);
    if s.has_priority() {
        lemma_pop_priority(s, prec);
    }
}

/// The scheduling priority of an envelope is the first byte of its
/// `dactor.Priority` header; without that header, or with an empty one, it
/// is NORMAL (128), whose lane is lane 2.
pub proof fn law_priority_from_header(e: WireEnvelope)
    ensures
        match e.headers.get_spec(priority_header_key()) {
            Some(b) => if b.len() > 0 {
                envelope_priority(e) == b[0]
            } else {
                envelope_priority(e) == 128
            },
            None => envelope_priority(e) == 128,
        },
        lane_of(128) == 2,
{
}

/// The five lanes cover the priority values 0..=63, 64..=127, 128..=191,
/// 192..=254 and 255, in that order.
pub proof fn law_lane_ranges(p: u8)
    ensures
        p <= 63 ==> lane_of(p) == 0,
        64 <= p <= 127 ==> lane_of(p) == 1,
        128 <= p <= 191 ==> lane_of(p) == 2,
        192 <= p <= 254 ==> lane_of(p) == 3,
        p == 255 ==> lane_of(p) == 4,
        0 <= lane_of(p) < 5,
{
}

/// Lane at cyclic offset `k` after lane `c`.
pub open spec fn lane_after(c: int, k: int) -> int {
    (c + 1 + k) % 5
}

/// The scan from offset `i` stops at the first non-empty lane: it returns
/// the lane at some offset `k >= i`, and the lanes at offsets `i..k` are
/// empty.
proof fn lemma_scan_offset(lanes: Seq<Seq<WireEnvelope>>, start: int, i: int) -> (k: int)
    requires
        lanes.len() == 5,
        0 <= start,
        0 <= i,
        scan_lanes(lanes, start, i) is Some,
    ensures
        i <= k < 5,
        scan_lanes(lanes, start, i) == Some((start + k) % 5),
        forall|m: int| i <= m < k ==> #[trigger] lanes[(start + m) % 5].len() == 0,
    decreases 5 - i,
{
    if lanes[(start + i) % 5].len() > 0 {
        i
    } else {
        lemma_scan_offset(lanes, start, i + 1)
    }
}

/// A fair lane-mode pop returns the oldest envelope of the lane it then
/// serves, chosen as follows:
/// - below the fairness limit, with the current lane non-empty, it stays on
///   the current lane and extends the run;
/// - below the limit, with the current lane empty, it goes back to the most
///   urgent non-empty lane;
/// - at the limit, it moves on to the first non-empty lane cyclically after
///   the current one.
/// A switch starts a new run of one pop.
pub proof fn law_fair_pop_choice(s: QueueModel)
    requires
        s.wf(),
        !s.comparer_mode,
        s.max_consecutive > 0,
        s.lane_len() > 0,
    ensures
        s.pop_fair_model().1 matches Some(e) && {
            let t = s.pop_fair_model().0;
            let c = s.current_lane;
            let le = lane_of(envelope_priority(e));
            &&& s.lanes[le].len() > 0
            &&& e == s.lanes[le][0]
            &&& t.current_lane == le
            &&& s.consecutive < s.max_consecutive && s.lanes[c].len() > 0 ==> le == c && t.consecutive
                == s.consecutive + 1
            &&& s.consecutive < s.max_consecutive && s.lanes[c].len() == 0 ==> t.consecutive == 1
                && forall|l: int| 0 <= l < 5 && #[trigger] s.lanes[l].len() > 0 ==> le <= l
            &&& s.consecutive >= s.max_consecutive ==> t.consecutive == 1 && exists|k: int|
                0 <= k < 5 && le == #[trigger] lane_after(c, k) && forall|m: int|
                    0 <= m < k ==> s.lanes[#[trigger] lane_after(c, m)].len() == 0
        },
{
    let l = lemma_pop_priority(s, by_priority());
    assert(s.pop_priority_model(by_priority()) == s.pop_fair_model());
    assert(lane_of(envelope_priority(s.lanes[l][0])) == l);
    let c = s.current_lane;
    if s.consecutive >= s.max_consecutive {
        let k = lemma_scan_offset(s.lanes, c + 1, 0);
        assert(lane_after(c, k) == l);
        assert forall|m: int| 0 <= m < k implies s.lanes[#[trigger] lane_after(c, m)].len() == 0 by {
            assert(lane_after(c, m) == (c + 1 + m) % 5);
        }
    } else if s.lanes[c].len() == 0 {
        lemma_scan_from_zero(s.lanes, 0);
    }
}

/// Lanes never invert priorities: a lower priority value never lands in a
/// later lane.
pub proof fn law_lane_monotonic(p: u8, q: u8)
    requires
        p <= q,
    ensures
        lane_of(p) <= lane_of(q),
        0 <= lane_of(p) < 5,
{
}

/// In strict lane mode, `peek` shows what `pop` returns whenever only one
/// side holds envelopes.
pub proof fn law_peek_is_next_pop(s: QueueModel, prec: Precedes)
    requires
        s.wf(),
        !s.comparer_mode,
        s.max_consecutive == 0,
        s.stream.len() == 0 || s.lane_len() == 0,
    ensures
        s.peek_model() == s.pop_model(prec).1,
{
    lemma_has_priority(s);
    if s.stream.len() == 0 && s.lane_len() > 0 {
        let some = lemma_some_lane(s);
        lemma_next_lane_complete(s.lanes, 0, some);
        lemma_scan_lanes_found(s.lanes, 0, 0);
    }
    if s.lane_len() == 0 {
        assert forall|m: int| 0 <= m < 5 implies #[trigger] s.lanes[m].len() == 0 by {}
        lemma_scan_lanes_found(s.lanes, 0, 0);
    }
}

/// The envelopes of a sequence of comparer entries.
pub open spec fn envelopes_of(s: Seq<QueuedEnvelope>) -> Seq<WireEnvelope> {
    s.map_values(|q: QueuedEnvelope| q.envelope)
}

/// Draining the comparer entries neither loses nor duplicates an envelope:
/// the drained order is a permutation of the entries.
pub proof fn law_drain_is_permutation(s: Seq<QueuedEnvelope>, prec: Precedes)
    ensures
        select_order(s, prec).to_multiset() == envelopes_of(s).to_multiset(),
    decreases s.len(),
{
    broadcast use vstd::seq_lib::group_to_multiset_ensures;

    if s.len() == 0 {
        assert(envelopes_of(s) =~= Seq::<WireEnvelope>::empty());
        assert(select_order(s, prec) =~= Seq::<WireEnvelope>::empty());
        assert(envelopes_of(s).to_multiset() =~= Multiset::<WireEnvelope>::empty());
        assert(select_order(s, prec).to_multiset() =~= Multiset::<WireEnvelope>::empty());
    } else {
        let b = best_index(s, prec);
        lemma_best_upto_range(s, prec, s.len() as int);
        let rest = s.remove(b);
        law_drain_is_permutation(rest, prec);
        let x = s[b].envelope;
        let out = select_order(s, prec);
        let tail = select_order(rest, prec);
        assert(out == seq![x] + tail);
        assert(out.drop_first() =~= tail);
        vstd::seq_lib::lemma_multiset_commutative(seq![x], tail);
        assert(seq![x].to_multiset() =~= Seq::<WireEnvelope>::empty().push(x).to_multiset()) by {
            assert(seq![x] =~= Seq::<WireEnvelope>::empty().push(x));
        }
        assert(Seq::<WireEnvelope>::empty().to_multiset() =~= Multiset::<WireEnvelope>::empty());
        assert(envelopes_of(rest) =~= envelopes_of(s).remove(b));
        assert(envelopes_of(s)[b] == x);
        assert(envelopes_of(rest).to_multiset() =~= envelopes_of(s).to_multiset().remove(x));
        assert(envelopes_of(s).to_multiset().count(x) > 0) by {
            assert(envelopes_of(s).contains(x));
        }
        assert(out.to_multiset() =~= envelopes_of(s).to_multiset());
    }
}

/// The envelopes held in the five lanes, counted with multiplicity.
pub open spec fn lane_items(lanes: Seq<Seq<WireEnvelope>>) -> Multiset<WireEnvelope> {
    lanes[0].to_multiset().add(lanes[1].to_multiset()).add(lanes[2].to_multiset()).add(
        lanes[3].to_multiset(),
    ).add(lanes[4].to_multiset())
}

/// Every envelope a queue holds, counted with multiplicity.
pub open spec fn queued(s: QueueModel) -> Multiset<WireEnvelope> {
    s.stream.to_multiset().add(lane_items(s.lanes)).add(envelopes_of(s.sorted).to_multiset())
}

/// Removing position `i` of a sequence removes one copy of `s[i]`.
proof fn lemma_remove_at_items(s: Seq<WireEnvelope>, i: int)
    requires
        0 <= i < s.len(),
    ensures
        s.to_multiset() == s.remove(i).to_multiset().insert(s[i]),
{
    broadcast use vstd::seq_lib::group_to_multiset_ensures;

    assert(s.contains(s[i]));
    assert(s.to_multiset() =~= s.remove(i).to_multiset().insert(s[i]));
}

/// Taking the front of lane `l` removes one copy of it from the lanes.
proof fn lemma_lane_items_take(lanes: Seq<Seq<WireEnvelope>>, l: int)
    requires
        lanes.len() == 5,
        0 <= l < 5,
        lanes[l].len() > 0,
    ensures
        lane_items(lanes) == lane_items(lanes.update(l, lanes[l].drop_first())).insert(lanes[l][0]),
{
    let m = lanes[l];
    assert(m.remove(0) =~= m.drop_first());
    lemma_remove_at_items(m, 0);
    let u = lanes.update(l, m.drop_first());
    assert(lane_items(lanes) =~= lane_items(u).insert(m[0]));
}

/// The priority side hands out one of its envelopes and keeps the others.
proof fn lemma_pop_priority_items(s: QueueModel, prec: Precedes)
    requires
        s.wf(),
        s.has_priority(),
    ensures
        s.pop_priority_model(prec).1 matches Some(e) && queued(s) == queued(
            s.pop_priority_model(prec).0,
        ).insert(e),
{
    let l = lemma_pop_priority(s, prec);
    let t = s.pop_priority_model(prec).0;
    if s.comparer_mode {
        let b = best_index(s.sorted, prec);
        assert(envelopes_of(s.sorted.remove(b)) =~= envelopes_of(s.sorted).remove(b));
        lemma_remove_at_items(envelopes_of(s.sorted), b);
        assert(queued(s) =~= queued(t).insert(s.sorted[b].envelope));
    } else {
        lemma_lane_items_take(s.lanes, l);
        assert(queued(s) =~= queued(t).insert(s.lanes[l][0]));
    }
}

/// The queued envelopes number exactly the queue's length.
pub proof fn law_queued_len(s: QueueModel)
    requires
        s.wf(),
    ensures
        queued(s).len() == s.len(),
{
    broadcast use vstd::seq_lib::group_to_multiset_ensures;

    assert(envelopes_of(s.sorted).len() == s.sorted.len());
}

/// `pop` hands out one of the queued envelopes and keeps all the others:
/// the envelopes queued before the pop are those queued after it plus the
/// one returned. A pop that returns nothing finds the queue empty and
/// leaves it as it was.
pub proof fn law_pop_conserves(s: QueueModel, prec: Precedes)
    requires
        s.wf(),
    ensures
        match s.pop_model(prec).1 {
            Some(e) => queued(s).count(e) > 0 && queued(s) == queued(s.pop_model(prec).0).insert(e),
            None => s.len() == 0 && s.pop_model(prec).0 == s,
        },
{
    lemma_has_priority(s);
    law_pop_removes_one(s, prec);
    let t = s.pop_model(prec).0;
    if s.len() > 0 {
        let take_stream = (s.stream.len() > 0 && !s.has_priority()) || (s.stream.len() > 0
            && s.has_priority() && s.stream_turn);
        if take_stream {
            assert(s.stream.remove(0) =~= s.stream.drop_first());
            lemma_remove_at_items(s.stream, 0);
            assert(queued(s) =~= queued(t).insert(s.stream[0]));
        } else {
            lemma_pop_priority_items(s, prec);
            let e = s.pop_priority_model(prec).1.unwrap();
            assert(queued(s) =~= queued(t).insert(e));
        }
    }
}

/// State and envelopes after a run of pops, the `i`-th pop ordering the
/// comparer side by `precs[i]`.
pub open spec fn pop_run(s: QueueModel, precs: Seq<Precedes>) -> (QueueModel, Seq<WireEnvelope>)
    decreases precs.len(),
{
    if precs.len() == 0 {
        (s, Seq::empty())
    } else {
        let (t, r) = s.pop_model(precs[0]);
        let (u, out) = pop_run(t, precs.drop_first());
        match r {
            Some(e) => (u, seq![e] + out),
            None => (u, out),
        }
    }
}

/// Popping hands out every queued envelope exactly once: after any run of
/// pops, the envelopes returned together with those still queued are the
/// envelopes queued at the start; a run of at least `len` pops empties the
/// queue and so returns all of them.
pub proof fn law_pop_run_returns_all(s: QueueModel, precs: Seq<Precedes>)
    requires
        s.wf(),
    ensures
        pop_run(s, precs).0.wf(),
        pop_run(s, precs).1.to_multiset().add(queued(pop_run(s, precs).0)) == queued(s),
        precs.len() >= s.len() ==> pop_run(s, precs).0.len() == 0,
        precs.len() >= s.len() ==> pop_run(s, precs).1.to_multiset() == queued(s),
    decreases precs.len(),
{
    broadcast use vstd::seq_lib::group_to_multiset_ensures;

    if precs.len() > 0 {
        let (t, r) = s.pop_model(precs[0]);
        law_pop_removes_one(s, precs[0]);
        law_pop_conserves(s, precs[0]);
        law_pop_run_returns_all(t, precs.drop_first());
        let (u, rest) = pop_run(t, precs.drop_first());
        match r {
            Some(e) => {
                let out = seq![e] + rest;
                vstd::seq_lib::lemma_multiset_commutative(seq![e], rest);
                assert(seq![e] =~= Seq::<WireEnvelope>::empty().push(e));
                assert(Seq::<WireEnvelope>::empty().to_multiset() =~= Multiset::<WireEnvelope>::empty());
                assert(out.to_multiset().add(queued(u)) =~= queued(s));
            },
            None => {},
        }
    } else {
        assert(Seq::<WireEnvelope>::empty().to_multiset() =~= Multiset::<WireEnvelope>::empty());
        assert(pop_run(s, precs).1.to_multiset().add(queued(s)) =~= queued(s));
    }
    if precs.len() >= s.len() {
        law_queued_len(pop_run(s, precs).0);
        assert(queued(pop_run(s, precs).0) =~= Multiset::<WireEnvelope>::empty());
        assert(pop_run(s, precs).1.to_multiset() =~= queued(s));
    }
}

/// The entry chosen by the drain scan has the smallest (priority, enqueue
/// time) key, hence the smallest priority, among the first `k` entries.
proof fn lemma_best_has_min_priority(s: Seq<QueuedEnvelope>, k: int)
    requires
        1 <= k <= s.len(),
    ensures
        forall|m: int|
            0 <= m < k ==> s[best_upto(s, by_priority_then_age(), k)].metadata.priority
                <= #[trigger] s[m].metadata.priority,
    decreases k,
{
    lemma_best_upto_range(s, by_priority_then_age(), k);
    if k > 1 {
        lemma_best_has_min_priority(s, k - 1);
        lemma_best_upto_range(s, by_priority_then_age(), k - 1);
    }
}

/// Every drained envelope comes from one of the entries.
proof fn lemma_select_members(s: Seq<QueuedEnvelope>, prec: Precedes, i: int) -> (k: int)
    requires
        0 <= i < select_order(s, prec).len(),
    ensures
        0 <= k < s.len(),
        select_order(s, prec)[i] == s[k].envelope,
    decreases s.len(),
{
    let b = best_index(s, prec);
    lemma_best_upto_range(s, prec, s.len() as int);
    let rest = s.remove(b);
    if i == 0 {
        b
    } else {
        let k2 = lemma_select_members(rest, prec, i - 1);
        if k2 < b {
            k2
        } else {
            k2 + 1
        }
    }
}

/// In comparer mode `drain_ordered` yields tell/ask envelopes by
/// non-decreasing priority value (most urgent first).
pub proof fn law_drain_by_priority(s: Seq<QueuedEnvelope>)
    requires
        forall|k: int|
            0 <= k < s.len() ==> (#[trigger] s[k]).metadata.priority == envelope_priority(
                s[k].envelope,
            ),
    ensures
        forall|i: int, j: int|
            0 <= i < j < select_order(s, by_priority_then_age()).len() ==> envelope_priority(
                #[trigger] select_order(s, by_priority_then_age())[i],
            ) <= envelope_priority(#[trigger] select_order(s, by_priority_then_age())[j]),
    decreases s.len(),
{
    let key = by_priority_then_age();
    let out = select_order(s, key);
    if s.len() > 0 {
        let b = best_index(s, key);
        lemma_best_upto_range(s, key, s.len() as int);
        lemma_best_has_min_priority(s, s.len() as int);
        let rest = s.remove(b);
        assert forall|k: int| 0 <= k < rest.len() implies (#[trigger] rest[k]).metadata.priority
            == envelope_priority(rest[k].envelope) by {
            if k < b {
                assert(rest[k] == s[k]);
            } else {
                assert(rest[k] == s[k + 1]);
            }
        }
        law_drain_by_priority(rest);
        let tail = select_order(rest, key);
        assert(out == seq![s[b].envelope] + tail);
        assert forall|i: int, j: int| 0 <= i < j < out.len() implies envelope_priority(
            #[trigger] out[i],
        ) <= envelope_priority(#[trigger] out[j]) by {
            if i == 0 {
                let k = lemma_select_members(rest, key, j - 1);
                assert(out[j] == tail[j - 1]);
                if k < b {
                    assert(rest[k] == s[k]);
                } else {
                    assert(rest[k] == s[k + 1]);
                }
            } else {
                assert(out[i] == tail[i - 1]);
                assert(out[j] == tail[j - 1]);
            }
        }
    }
}

/// Ordering by priority picks the first entry of smallest priority value:
/// every entry has a priority no smaller, and every earlier entry a larger
/// one (equal priorities leave in enqueue order).
pub proof fn law_first_among_most_urgent(s: Seq<QueuedEnvelope>, k: int)
    requires
        1 <= k <= s.len(),
    ensures
        0 <= best_upto(s, by_priority(), k) < k,
        forall|m: int|
            0 <= m < k ==> s[best_upto(s, by_priority(), k)].metadata.priority
                <= #[trigger] s[m].metadata.priority,
        forall|m: int|
            0 <= m < best_upto(s, by_priority(), k) ==> #[trigger] s[m].metadata.priority
                > s[best_upto(s, by_priority(), k)].metadata.priority,
    decreases k,
{
    lemma_best_upto_range(s, by_priority(), k);
    if k > 1 {
        law_first_among_most_urgent(s, k - 1);
    }
}

/// With stamps in entry order, the scan by (priority, stamp) picks the same
/// entry as the scan by priority alone.
proof fn lemma_age_scan_is_priority_scan(s: Seq<QueuedEnvelope>, k: int)
    requires
        1 <= k <= s.len(),
        stamps_in_order(s),
    ensures
        best_upto(s, by_priority_then_age(), k) == best_upto(s, by_priority(), k),
    decreases k,
{
    if k > 1 {
        lemma_age_scan_is_priority_scan(s, k - 1);
        lemma_best_upto_range(s, by_priority(), k - 1);
        let b = best_upto(s, by_priority(), k - 1);
        assert(s[b].metadata.enqueued_at <= s[k - 1].metadata.enqueued_at);
    }
}

/// Draining is stable: when the entries' enqueue stamps never decrease in
/// entry order, the drain by (priority, stamp) is the drain by priority
/// alone, which at every step takes the first entry of smallest priority
/// value, so envelopes of equal priority leave in the order they entered.
pub proof fn law_drain_stable(s: Seq<QueuedEnvelope>)
    requires
        stamps_in_order(s),
    ensures
        select_order(s, by_priority_then_age()) == select_order(s, by_priority()),
    decreases s.len(),
{
    if s.len() > 0 {
        lemma_age_scan_is_priority_scan(s, s.len() as int);
        let b = best_index(s, by_priority());
        lemma_best_upto_range(s, by_priority(), s.len() as int);
        let rest = s.remove(b);
        assert forall|i: int, j: int| 0 <= i < j < rest.len() implies #[trigger] rest[i].metadata.enqueued_at
            <= #[trigger] rest[j].metadata.enqueued_at by {
            let i0 = if i < b { i } else { i + 1 };
            let j0 = if j < b { j } else { j + 1 };
            assert(rest[i] == s[i0]);
            assert(rest[j] == s[j0]);
            assert(s[i0].metadata.enqueued_at <= s[j0].metadata.enqueued_at);
        }
        law_drain_stable(rest);
    }
}

/// Whether `prec` is, on the entries of `s`, the "strictly before" of a
/// total preorder: irreflexive, transitive, and with incomparability
/// transitive (`a` before `c` implies `a` before `b` or `b` before `c`).
pub open spec fn is_strict_weak_order_on(s: Seq<QueuedEnvelope>, prec: Precedes) -> bool {
    &&& forall|i: int| 0 <= i < s.len() ==> !prec(#[trigger] s[i].metadata, s[i].metadata)
    &&& forall|i: int, j: int, l: int|
        0 <= i < s.len() && 0 <= j < s.len() && 0 <= l < s.len() && prec(
            #[trigger] s[i].metadata,
            #[trigger] s[j].metadata,
        ) && prec(s[j].metadata, #[trigger] s[l].metadata) ==> prec(s[i].metadata, s[l].metadata)
    &&& forall|i: int, j: int, l: int|
        0 <= i < s.len() && 0 <= j < s.len() && 0 <= l < s.len() && prec(
            #[trigger] s[i].metadata,
            #[trigger] s[l].metadata,
        ) ==> prec(s[i].metadata, #[trigger] s[j].metadata) || prec(s[j].metadata, s[l].metadata)
}

/// The scan over the first `k` entries picks an entry that none of them
/// precedes and that precedes every entry before it.
proof fn lemma_scan_picks_earliest_unbeaten(s: Seq<QueuedEnvelope>, prec: Precedes, k: int)
    requires
        1 <= k <= s.len(),
        is_strict_weak_order_on(s, prec),
    ensures
        0 <= best_upto(s, prec, k) < k,
        forall|m: int| 0 <= m < k ==> !prec(#[trigger] s[m].metadata, s[best_upto(s, prec, k)].metadata),
        forall|m: int|
            0 <= m < best_upto(s, prec, k) ==> prec(s[best_upto(s, prec, k)].metadata, #[trigger] s[m].metadata),
    decreases k,
{
    lemma_best_upto_range(s, prec, k);
    if k > 1 {
        lemma_scan_picks_earliest_unbeaten(s, prec, k - 1);
        let b = best_upto(s, prec, k - 1);
        let n = k - 1;
        if prec(s[n].metadata, s[b].metadata) {
            assert forall|m: int| 0 <= m < k implies !prec(#[trigger] s[m].metadata, s[n].metadata) by {
                if m < n && prec(s[m].metadata, s[n].metadata) {
                    assert(prec(s[m].metadata, s[b].metadata));
                }
            }
            assert forall|m: int| 0 <= m < n implies prec(s[n].metadata, #[trigger] s[m].metadata) by {
                assert(prec(s[n].metadata, s[m].metadata) || prec(s[m].metadata, s[b].metadata));
            }
        }
    }
}

/// Under a comparer whose "less" is the strict part of a total preorder on
/// the queued metadata, the comparer scan picks the earliest entry that no
/// entry precedes: nothing precedes the chosen entry, and the chosen entry
/// precedes every entry queued before it.
pub proof fn law_comparer_picks_earliest_unbeaten(s: Seq<QueuedEnvelope>, prec: Precedes)
    requires
        s.len() > 0,
        is_strict_weak_order_on(s, prec),
    ensures
        0 <= best_index(s, prec) < s.len(),
        forall|m: int| 0 <= m < s.len() ==> !prec(#[trigger] s[m].metadata, s[best_index(s, prec)].metadata),
        forall|m: int|
            0 <= m < best_index(s, prec) ==> prec(s[best_index(s, prec)].metadata, #[trigger] s[m].metadata),
{
    lemma_scan_picks_earliest_unbeaten(s, prec, s.len() as int);
}

/// With the strict-priority comparer, the comparer's order is "lower
/// priority value first", whatever the clock reads.
pub proof fn law_strict_comparer_is_by_priority(
    q: OutboundPriorityQueue<StrictPriorityWireComparer>,
    now: u128,
)
    requires
        q.comparer_spec() is Some,
    ensures
        q.precedes(now) == by_priority(),
{
    assert(q.precedes(now) =~= by_priority());
}

/// A bounded queue never holds more than its capacity, and refuses a push
/// exactly when full.
pub proof fn law_capacity_bound(s: QueueModel, e: WireEnvelope, now: u128)
    requires
        s.wf(),
        s.capacity > 0,
    ensures
        s.len() <= s.capacity,
        s.accepts() <==> s.len() < s.capacity,
        s.accepts() ==> s.push_model(e, now).len() <= s.capacity,
{
    if s.accepts() {
        law_push_adds_one(s, e, now);
    }
}

/// Draining hands out every envelope and leaves an empty, well-formed
/// queue with its configuration unchanged.
pub proof fn law_drain_empties(s: QueueModel)
    requires
        s.wf(),
    ensures
        s.drain_output().len() == s.len(),
        s.emptied().wf(),
        s.emptied().len() == 0,
        s.emptied().capacity == s.capacity,
        s.emptied().max_consecutive == s.max_consecutive,
        s.emptied().comparer_mode == s.comparer_mode,
{
    broadcast use vstd::seq_lib::group_to_multiset_ensures;

    if s.comparer_mode {
        law_drain_is_permutation(s.sorted, by_priority_then_age());
        let out = select_order(s.sorted, by_priority_then_age());
        let all = envelopes_of(s.sorted);
        assert(out.to_multiset().len() == out.len());
        assert(all.to_multiset().len() == all.len());
        assert(out.len() == all.len());
    }
}

/// Lane holding position `i` of the lanes laid end to end.
spec fn lane_at(s: QueueModel, i: int) -> int {
    let c1 = s.lanes[0].len() as int;
    let c2 = c1 + s.lanes[1].len();
    let c3 = c2 + s.lanes[2].len();
    let c4 = c3 + s.lanes[3].len();
    if i < c1 {
        0
    } else if i < c2 {
        1
    } else if i < c3 {
        2
    } else if i < c4 {
        3
    } else {
        4
    }
}

/// Position `i` of the lanes laid end to end is an envelope of lane
/// `lane_at(s, i)`.
proof fn lemma_lanes_in_order_at(s: QueueModel, i: int)
    requires
        s.wf(),
        0 <= i < s.lanes_in_order().len(),
    ensures
        lane_of(envelope_priority(s.lanes_in_order()[i])) == lane_at(s, i),
{
    let l0 = s.lanes[0];
    let l1 = s.lanes[1];
    let l2 = s.lanes[2];
    let l3 = s.lanes[3];
    let l4 = s.lanes[4];
    let c1 = l0.len() as int;
    let c2 = c1 + l1.len();
    let c3 = c2 + l2.len();
    let c4 = c3 + l3.len();
    let out = s.lanes_in_order();
    assert(out == (((l0 + l1) + l2) + l3) + l4);
    if i < c1 {
        assert(out[i] == l0[i]);
    } else if i < c2 {
        assert(out[i] == l1[i - c1]);
    } else if i < c3 {
        assert(out[i] == l2[i - c2]);
    } else if i < c4 {
        assert(out[i] == l3[i - c3]);
    } else {
        assert(out[i] == l4[i - c4]);
    }
}

/// In lane mode `drain_ordered` yields tell/ask envelopes lane by lane,
/// most urgent lane first.
pub proof fn law_drain_lane_order(s: QueueModel)
    requires
        s.wf(),
    ensures
        forall|i: int, j: int|
            0 <= i < j < s.lanes_in_order().len() ==> lane_of(
                envelope_priority(#[trigger] s.lanes_in_order()[i]),
            ) <= lane_of(envelope_priority(#[trigger] s.lanes_in_order()[j])),
{
    assert forall|i: int, j: int| 0 <= i < j < s.lanes_in_order().len() implies lane_of(
        envelope_priority(#[trigger] s.lanes_in_order()[i]),
    ) <= lane_of(envelope_priority(#[trigger] s.lanes_in_order()[j])) by {
        lemma_lanes_in_order_at(s, i);
        lemma_lanes_in_order_at(s, j);
    }
}

/// The lanes laid end to end hold the lanes' envelopes.
proof fn lemma_lanes_in_order_items(s: QueueModel)
    requires
        s.lanes.len() == 5,
    ensures
        s.lanes_in_order().to_multiset() == lane_items(s.lanes),
{
    let l = s.lanes;
    vstd::seq_lib::lemma_multiset_commutative(l[0], l[1]);
    vstd::seq_lib::lemma_multiset_commutative(l[0] + l[1], l[2]);
    vstd::seq_lib::lemma_multiset_commutative(l[0] + l[1] + l[2], l[3]);
    vstd::seq_lib::lemma_multiset_commutative(l[0] + l[1] + l[2] + l[3], l[4]);
}

/// What `drain_ordered` returns: every queued envelope exactly once; first
/// the stream envelopes in enqueue order; then the tell/ask envelopes, by
/// lane from most to least urgent in lane mode, or by non-decreasing
/// priority value in comparer mode, where with stamps in entry order the
/// earliest of the most urgent goes first at every step.
pub proof fn law_drain_output(s: QueueModel)
    requires
        s.wf(),
    ensures
        s.drain_output().len() == s.len(),
        s.drain_output().to_multiset() == queued(s),
        forall|i: int| 0 <= i < s.stream.len() ==> #[trigger] s.drain_output()[i] == s.stream[i],
        forall|i: int|
            s.stream.len() <= i < s.drain_output().len() ==> !(
            #[trigger] s.drain_output()[i]).send_mode.is_stream_spec(),
        !s.comparer_mode ==> forall|i: int, j: int|
            s.stream.len() <= i < j < s.drain_output().len() ==> lane_of(
                envelope_priority(#[trigger] s.drain_output()[i]),
            ) <= lane_of(envelope_priority(#[trigger] s.drain_output()[j])),
        s.comparer_mode ==> forall|i: int, j: int|
            s.stream.len() <= i < j < s.drain_output().len() ==> envelope_priority(
                #[trigger] s.drain_output()[i],
            ) <= envelope_priority(#[trigger] s.drain_output()[j]),
        s.comparer_mode && stamps_in_order(s.sorted) ==> s.drain_output() == s.stream + select_order(
            s.sorted,
            by_priority(),
        ),
{
    broadcast use vstd::seq_lib::group_to_multiset_ensures;

    let out = s.drain_output();
    let n = s.stream.len() as int;
    law_drain_empties(s);
    let tail = if s.comparer_mode {
        select_order(s.sorted, by_priority_then_age())
    } else {
        s.lanes_in_order()
    };
    assert(out == s.stream + tail);
    vstd::seq_lib::lemma_multiset_commutative(s.stream, tail);
    assert forall|i: int| n <= i < out.len() implies out[i] == tail[i - n] by {}
    if s.comparer_mode {
        law_drain_is_permutation(s.sorted, by_priority_then_age());
        law_drain_by_priority(s.sorted);
        assert forall|m: int| 0 <= m < 5 implies #[trigger] s.lanes[m].len() == 0 by {}
        assert(lane_items(s.lanes) =~= Multiset::<WireEnvelope>::empty());
        assert(out.to_multiset() =~= queued(s));
        assert forall|i: int| n <= i < out.len() implies !(#[trigger] out[i]).send_mode.is_stream_spec() by {
            let k = lemma_select_members(s.sorted, by_priority_then_age(), i - n);
        }
        if stamps_in_order(s.sorted) {
            law_drain_stable(s.sorted);
        }
    } else {
        lemma_lanes_in_order_items(s);
        assert(envelopes_of(s.sorted) =~= Seq::<WireEnvelope>::empty());
        assert(envelopes_of(s.sorted).to_multiset() =~= Multiset::<WireEnvelope>::empty());
        assert(out.to_multiset() =~= queued(s));
        law_drain_lane_order(s);
        assert forall|i: int| n <= i < out.len() implies !(#[trigger] out[i]).send_mode.is_stream_spec() by {
            lemma_lanes_in_order_at(s, i - n);
            lemma_lanes_in_order_member(s, i - n);
        }
    }
}

/// Every envelope of the lanes laid end to end comes from a lane.
proof fn lemma_lanes_in_order_member(s: QueueModel, i: int)
    requires
        s.wf(),
        0 <= i < s.lanes_in_order().len(),
    ensures
        !s.lanes_in_order()[i].send_mode.is_stream_spec(),
{
    let l0 = s.lanes[0];
    let l1 = s.lanes[1];
    let l2 = s.lanes[2];
    let l3 = s.lanes[3];
    let l4 = s.lanes[4];
    let c1 = l0.len() as int;
    let c2 = c1 + l1.len();
    let c3 = c2 + l2.len();
    let c4 = c3 + l3.len();
    let out = s.lanes_in_order();
    if i < c1 {
        assert(out[i] == l0[i]);
    } else if i < c2 {
        assert(out[i] == l1[i - c1]);
    } else if i < c3 {
        assert(out[i] == l2[i - c2]);
    } else if i < c4 {
        assert(out[i] == l3[i - c3]);
    } else {
        assert(out[i] == l4[i - c4]);
    }
}

/// Whether an envelope belongs to lane `l`.
pub open spec fn in_lane(l: int) -> spec_fn(WireEnvelope) -> bool {
    |e: WireEnvelope| lane_of(envelope_priority(e)) == l
}

/// Filtering a sequence whose elements all pass keeps it whole, and one
/// whose elements all fail leaves nothing.
proof fn lemma_filter_all_or_none(q: Seq<WireEnvelope>, pred: spec_fn(WireEnvelope) -> bool, keep: bool)
    requires
        forall|i: int| 0 <= i < q.len() ==> pred(#[trigger] q[i]) == keep,
    ensures
        q.filter(pred) == if keep {
            q
        } else {
            Seq::<WireEnvelope>::empty()
        },
    decreases q.len(),
{
    reveal(Seq::filter);
    if q.len() > 0 {
        let d = q.drop_last();
        assert forall|i: int| 0 <= i < d.len() implies pred(#[trigger] d[i]) == keep by {
            assert(d[i] == q[i]);
        }
        lemma_filter_all_or_none(d, pred, keep);
        assert(pred(q[q.len() - 1]) == keep);
        if keep {
            assert(d.push(q.last()) =~= q);
        }
    }
}

/// In lane mode, `drain_ordered` keeps each lane's envelopes in the order
/// they were queued: the envelopes of lane `l` among the drained tell/ask
/// part are exactly lane `l`, oldest first.
pub proof fn law_drain_lane_fifo(s: QueueModel, l: int)
    requires
        s.wf(),
        !s.comparer_mode,
        0 <= l < 5,
    ensures
        s.drain_output().skip(s.stream.len() as int).filter(in_lane(l)) == s.lanes[l],
{
    let n = s.stream.len() as int;
    let out = s.drain_output();
    let p = in_lane(l);
    let l0 = s.lanes[0];
    let l1 = s.lanes[1];
    let l2 = s.lanes[2];
    let l3 = s.lanes[3];
    let l4 = s.lanes[4];
    assert(out.skip(n) =~= (((l0 + l1) + l2) + l3) + l4);
    Seq::filter_distributes_over_add(((l0 + l1) + l2) + l3, l4, p);
    Seq::filter_distributes_over_add((l0 + l1) + l2, l3, p);
    Seq::filter_distributes_over_add(l0 + l1, l2, p);
    Seq::filter_distributes_over_add(l0, l1, p);
    assert forall|m: int| 0 <= m < 5 implies #[trigger] s.lanes[m].filter(p) == if m == l {
        s.lanes[m]
    } else {
        Seq::<WireEnvelope>::empty()
    } by {
        assert forall|i: int| 0 <= i < s.lanes[m].len() implies p(#[trigger] s.lanes[m][i]) == (m
            == l) by {}
        lemma_filter_all_or_none(s.lanes[m], p, m == l);
    }
    assert(l0.filter(p) == s.lanes[0].filter(p));
    assert(l1.filter(p) == s.lanes[1].filter(p));
    assert(l2.filter(p) == s.lanes[2].filter(p));
    assert(l3.filter(p) == s.lanes[3].filter(p));
    assert(l4.filter(p) == s.lanes[4].filter(p));
    assert(out.skip(n).filter(p) =~= s.lanes[l]);
}

/// In comparer mode, when no stream envelope waits and the comparer's
/// "less" is the strict part of a total preorder on the queued metadata,
/// `pop` returns the earliest entry that no entry precedes and keeps the
/// others in entry order.
pub proof fn law_comparer_pop(s: QueueModel, prec: Precedes) -> (b: int)
    requires
        s.wf(),
        s.comparer_mode,
        s.stream.len() == 0,
        s.sorted.len() > 0,
        is_strict_weak_order_on(s.sorted, prec),
    ensures
        0 <= b < s.sorted.len(),
        s.pop_model(prec).1 == Some(s.sorted[b].envelope),
        s.pop_model(prec).0.sorted == s.sorted.remove(b),
        forall|m: int| 0 <= m < s.sorted.len() ==> !prec(#[trigger] s.sorted[m].metadata, s.sorted[b].metadata),
        forall|m: int| 0 <= m < b ==> prec(s.sorted[b].metadata, #[trigger] s.sorted[m].metadata),
{
    lemma_has_priority(s);
    lemma_pop_priority(s, prec);
    law_comparer_picks_earliest_unbeaten(s.sorted, prec);
    best_index(s.sorted, prec)
}

/// In comparer mode, when no stream envelope waits, `peek` shows the
/// earliest queued entry of smallest priority value: no entry has a smaller
/// priority value and every entry queued before it has a larger one.
pub proof fn law_peek_comparer(s: QueueModel) -> (b: int)
    requires
        s.wf(),
        s.comparer_mode,
        s.stream.len() == 0,
        s.sorted.len() > 0,
    ensures
        0 <= b < s.sorted.len(),
        s.peek_model() == Some(s.sorted[b].envelope),
        forall|m: int|
            0 <= m < s.sorted.len() ==> s.sorted[b].metadata.priority
                <= #[trigger] s.sorted[m].metadata.priority,
        forall|m: int|
            0 <= m < b ==> #[trigger] s.sorted[m].metadata.priority > s.sorted[b].metadata.priority,
{
    law_first_among_most_urgent(s.sorted, s.sorted.len() as int);
    best_index(s.sorted, by_priority())
}

/// With the strict-priority order and no stream envelope waiting, `peek`
/// shows what `pop` returns in comparer mode.
pub proof fn law_peek_is_next_comparer_pop(s: QueueModel)
    requires
        s.wf(),
        s.comparer_mode,
        s.stream.len() == 0,
    ensures
        s.peek_model() == s.pop_model(by_priority()).1,
{
    lemma_has_priority(s);
}

/// The aging comparer's "dequeue first" relation at clock reading `now`.
pub open spec fn aging_precedes(c: AgingWireComparer, now: u128) -> Precedes {
    |a: EnvelopeMetadata, b: EnvelopeMetadata| c.compare_spec(a, b, now) is Less
}

/// With the aging comparer, an envelope that has waited `max_age` is served
/// before every envelope that has not: whenever one of the first `k`
/// entries is aged, the chosen entry is aged.
pub proof fn law_aging_serves_aged_first(s: Seq<QueuedEnvelope>, c: AgingWireComparer, now: u128, k: int, aged: int)
    requires
        1 <= k <= s.len(),
        0 <= aged < k,
        is_aged(now, s[aged].metadata.enqueued_at, c.max_age_nanos),
    ensures
        is_aged(
            now,
            s[best_upto(s, aging_precedes(c, now), k)].metadata.enqueued_at,
            c.max_age_nanos,
        ),
    decreases k,
{
    let prec = aging_precedes(c, now);
    lemma_best_upto_range(s, prec, k);
    if k > 1 {
        lemma_best_upto_range(s, prec, k - 1);
        if aged < k - 1 {
            law_aging_serves_aged_first(s, c, now, k - 1, aged);
        }
    }
}

} // verus!
