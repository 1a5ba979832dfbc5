//! The node engine's state machine, as mathematics.
//!
//! `EngineModel` is the abstract state of the engine: what the node is doing,
//! what it has subscribed to, which broadcast messages it has already seen,
//! which requests are in flight, which inbound channels are still unanswered,
//! and which peers are connected or discovered.  Every transition the engine
//! can make is a function here, and the executable engine is proved to follow
//! them step for step.  The laws at the end hold of the transitions alone.

use vstd::prelude::*;
use crate::codec::DecodeError;

verus! {

/// The engine's lifecycle: it only ever moves between these two states.
#[derive(Debug, Clone, Copy, PartialEq, Eq, Structural)]
pub enum NodeState {
    /// Not listening; commands that need the drain loop are refused upstream.
    Stopped,
    /// Listening and draining events.
    Running,
}

/// Everything an engine operation can report instead of succeeding.
#[derive(Debug, Clone, Copy, PartialEq, Eq, Structural)]
pub enum EngineError {
    /// A caller-supplied address or peer identifier does not parse.
    AddressError,
    /// The topic is already in the subscription set; nothing changed.
    AlreadySubscribed,
    /// `start` while running; nothing changed, no second listener.
    AlreadyRunning,
    /// A caller-supplied frame is not the encoding of any message.
    DecodeError,
    /// The transport cannot carry the operation, e.g. an answer on a channel
    /// that was already answered.
    TransportError,
}

/// Abstract engine state.  Peers, topics and addresses are character
/// sequences; payloads are byte sequences; pending requests are id/peer
/// pairs.
pub ghost struct EngineModel {
    pub state: NodeState,
    pub local: Seq<char>,
    pub topics: Seq<Seq<char>>,
    pub seen: Seq<(Seq<char>, Seq<u8>)>,
    pub pending: Seq<(u64, Seq<char>)>,
    pub next_request: u64,
    pub channels: Seq<u64>,
    pub connected: Seq<Seq<char>>,
    pub discovered: Seq<Seq<char>>,
    pub listeners: u64,
}

/// No element occurs twice.
pub open spec fn seq_unique<A>(s: Seq<A>) -> bool {
    forall|i: int, j: int| 0 <= i < j < s.len() ==> s[i] != s[j]
}

/// The engine's invariant: every set-like component holds each member once,
/// and every pending request id is fresh below the id counter.
pub open spec fn model_wf(m: EngineModel) -> bool {
    &&& seq_unique(m.topics)
    &&& seq_unique(m.seen)
    &&& seq_unique(m.channels)
    &&& seq_unique(m.connected)
    &&& seq_unique(m.discovered)
    &&& forall|i: int| 0 <= i < m.pending.len() ==> (#[trigger] m.pending[i]).0 < m.next_request
    &&& forall|i: int, j: int|
        0 <= i < j < m.pending.len() ==> m.pending[i].0 != m.pending[j].0
}

/// Index of the first occurrence of `x` in `s`, or `-1`.
pub open spec fn find_elem<A>(s: Seq<A>, x: A) -> int
    decreases s.len(),
{
    if s.len() == 0 {
        -1
    } else if s[0] == x {
        0
    } else {
        let r = find_elem(s.drop_first(), x);
        if r == -1 {
            -1
        } else {
            r + 1
        }
    }
}

/// `find_elem` returns the index of the first occurrence.
pub proof fn lemma_find_elem_at<A>(s: Seq<A>, x: A, i: int)
    requires
        0 <= i < s.len(),
        s[i] == x,
        forall|j: int| 0 <= j < i ==> s[j] != x,
    ensures
        find_elem(s, x) == i,
    decreases i,
{
    if i > 0 {
        lemma_find_elem_at(s.drop_first(), x, i - 1);
    }
}

/// `find_elem` misses nothing: if `x` is nowhere in `s`, it returns `-1`.
pub proof fn lemma_find_elem_none<A>(s: Seq<A>, x: A)
    requires
        forall|j: int| 0 <= j < s.len() ==> s[j] != x,
    ensures
        find_elem(s, x) == -1,
    decreases s.len(),
{
    if s.len() > 0 {
        lemma_find_elem_none(s.drop_first(), x);
    }
}

/// Index of the pending request with id `id`, or `-1`.
pub open spec fn find_pending(ps: Seq<(u64, Seq<char>)>, id: u64) -> int
    decreases ps.len(),
{
    if ps.len() == 0 {
        -1
    } else if ps[0].0 == id {
        0
    } else {
        let r = find_pending(ps.drop_first(), id);
        if r == -1 {
            -1
        } else {
            r + 1
        }
    }
}

/// `find_pending` returns the index of the first request with the id.
pub proof fn lemma_find_pending_at(ps: Seq<(u64, Seq<char>)>, id: u64, i: int)
    requires
        0 <= i < ps.len(),
        ps[i].0 == id,
        forall|j: int| 0 <= j < i ==> (#[trigger] ps[j]).0 != id,
    ensures
        find_pending(ps, id) == i,
    decreases i,
{
    if i > 0 {
        lemma_find_pending_at(ps.drop_first(), id, i - 1);
    }
}

/// If no pending request has the id, `find_pending` returns `-1`.
pub proof fn lemma_find_pending_none(ps: Seq<(u64, Seq<char>)>, id: u64)
    requires
        forall|j: int| 0 <= j < ps.len() ==> (#[trigger] ps[j]).0 != id,
    ensures
        find_pending(ps, id) == -1,
    decreases ps.len(),
{
    if ps.len() > 0 {
        lemma_find_pending_none(ps.drop_first(), id);
    }
}

/// The pending requests not addressed to `peer`, in order.
pub open spec fn keep_other_peer(ps: Seq<(u64, Seq<char>)>, peer: Seq<char>) -> Seq<
    (u64, Seq<char>),
>
    decreases ps.len(),
{
    if ps.len() == 0 {
        ps
    } else {
        let rest = keep_other_peer(ps.drop_first(), peer);
        if ps[0].1 == peer {
            rest
        } else {
            seq![ps[0]] + rest
        }
    }
}

/// The ids of the pending requests addressed to `peer`, in order.
pub open spec fn ids_of_peer(ps: Seq<(u64, Seq<char>)>, peer: Seq<char>) -> Seq<u64>
    decreases ps.len(),
{
    if ps.len() == 0 {
        Seq::empty()
    } else {
        let rest = ids_of_peer(ps.drop_first(), peer);
        if ps[0].1 == peer {
            seq![ps[0].0] + rest
        } else {
            rest
        }
    }
}

/// Subscribe to a topic: refused as a no-op when already subscribed.
pub open spec fn spec_subscribe(m: EngineModel, t: Seq<char>) -> (EngineModel, Result<
    (),
    EngineError,
>) {
    if m.topics.contains(t) {
        (m, Err(EngineError::AlreadySubscribed))
    } else {
        (EngineModel { topics: m.topics.push(t), ..m }, Ok(()))
    }
}

/// Start the node: refused while running (no second listener is asked for),
/// refused on a bad address, otherwise the one Stopped-to-Running move.
pub open spec fn spec_start(m: EngineModel, addr_ok: bool) -> (EngineModel, Result<
    (),
    EngineError,
>) {
    if m.state is Running {
        (m, Err(EngineError::AlreadyRunning))
    } else if !addr_ok {
        (m, Err(EngineError::AddressError))
    } else {
        (EngineModel { state: NodeState::Running, ..m }, Ok(()))
    }
}

/// Stop the node: the Running-to-Stopped move.  Connections and listeners are
/// gone, and every in-flight request and unanswered channel is resolved by
/// cancellation.  Returns whether the node had been running.
pub open spec fn spec_stop(m: EngineModel) -> (EngineModel, bool) {
    if m.state is Running {
        (
            EngineModel {
                state: NodeState::Stopped,
                pending: Seq::empty(),
                channels: Seq::empty(),
                connected: Seq::empty(),
                listeners: 0,
                ..m
            },
            true,
        )
    } else {
        (m, false)
    }
}

/// Dial a peer: refused on a bad address; the connection itself arrives later
/// as an event, so the state does not move.
pub open spec fn spec_connect(addr_ok: bool) -> Result<(), EngineError> {
    if addr_ok {
        Ok(())
    } else {
        Err(EngineError::AddressError)
    }
}

/// Send a reaction: the frame must decode and the peer identifier must parse;
/// then one pending request is created under the next fresh id.
pub open spec fn spec_send_reaction(
    m: EngineModel,
    peer: Seq<char>,
    peer_ok: bool,
    frame_ok: bool,
) -> (EngineModel, Result<u64, EngineError>) {
    if !frame_ok {
        (m, Err(EngineError::DecodeError))
    } else if !peer_ok {
        (m, Err(EngineError::AddressError))
    } else {
        (
            EngineModel {
                pending: m.pending.push((m.next_request, peer)),
                next_request: (m.next_request + 1) as u64,
                ..m
            },
            Ok(m.next_request),
        )
    }
}

/// Answer an inbound channel: allowed exactly once per channel.  A second
/// answer is a protocol violation and is refused with the state unchanged.
pub open spec fn spec_send_ack(m: EngineModel, ch: u64) -> (EngineModel, Result<
    (),
    EngineError,
>) {
    if m.channels.contains(ch) {
        (
            EngineModel { channels: m.channels.remove(find_elem(m.channels, ch)), ..m },
            Ok(()),
        )
    } else {
        (m, Err(EngineError::TransportError))
    }
}

/// A broadcast message arrives: delivered once per distinct topic/payload
/// pair, byte-identical repeats are dropped.
pub open spec fn spec_deliver(m: EngineModel, t: Seq<char>, p: Seq<u8>) -> (EngineModel, bool) {
    if m.seen.contains((t, p)) {
        (m, false)
    } else {
        (EngineModel { seen: m.seen.push((t, p)), ..m }, true)
    }
}

/// A response or failure arrives for a request: the one pending entry with
/// that id is resolved and destroyed; an unknown id resolves nothing.
pub open spec fn spec_resolve(m: EngineModel, id: u64) -> (EngineModel, bool) {
    let k = find_pending(m.pending, id);
    if k == -1 {
        (m, false)
    } else {
        (EngineModel { pending: m.pending.remove(k), ..m }, true)
    }
}

/// An inbound request opens its response channel, at most once.
pub open spec fn spec_inbound(m: EngineModel, ch: u64) -> EngineModel {
    if m.channels.contains(ch) {
        m
    } else {
        EngineModel { channels: m.channels.push(ch), ..m }
    }
}

/// A connection is up: the peer joins the connected set.
pub open spec fn spec_connection_established(m: EngineModel, peer: Seq<char>) -> EngineModel {
    if m.connected.contains(peer) {
        m
    } else {
        EngineModel { connected: m.connected.push(peer), ..m }
    }
}

/// A connection is gone: the peer leaves the connected set and every pending
/// request to it is resolved by failure.
pub open spec fn spec_connection_closed(m: EngineModel, peer: Seq<char>) -> (EngineModel, Seq<
    u64,
>) {
    let connected2 = if m.connected.contains(peer) {
        m.connected.remove(find_elem(m.connected, peer))
    } else {
        m.connected
    };
    (
        EngineModel {
            connected: connected2,
            pending: keep_other_peer(m.pending, peer),
            ..m
        },
        ids_of_peer(m.pending, peer),
    )
}

/// A peer is advertised: it joins the discovered set.
pub open spec fn spec_discover(m: EngineModel, peer: Seq<char>) -> EngineModel {
    if m.discovered.contains(peer) {
        m
    } else {
        EngineModel { discovered: m.discovered.push(peer), ..m }
    }
}

/// A peer's advertisement lapses: it leaves the discovered set.
pub open spec fn spec_expire(m: EngineModel, peer: Seq<char>) -> EngineModel {
    if m.discovered.contains(peer) {
        EngineModel { discovered: m.discovered.remove(find_elem(m.discovered, peer)), ..m }
    } else {
        m
    }
}

/// A listener is bound.
pub open spec fn spec_new_listener(m: EngineModel) -> EngineModel {
    if m.listeners < u64::MAX {
        EngineModel { listeners: (m.listeners + 1) as u64, ..m }
    } else {
        m
    }
}

/// Pushing a fresh element keeps a sequence duplicate-free.
pub proof fn lemma_unique_push<A>(s: Seq<A>, x: A)
    requires
        seq_unique(s),
        !s.contains(x),
    ensures
        seq_unique(s.push(x)),
{
    assert forall|i: int, j: int| 0 <= i < j < s.push(x).len() implies s.push(x)[i] != s.push(
        x,
    )[j] by {
        if j == s.len() {
            assert(s.push(x)[i] == s[i]);
            if s[i] == x {
                assert(s.contains(x));
            }
        }
    }
}

/// Removing an element keeps a sequence duplicate-free.
pub proof fn lemma_unique_remove<A>(s: Seq<A>, k: int)
    requires
        seq_unique(s),
        0 <= k < s.len(),
    ensures
        seq_unique(s.remove(k)),
{
    let s2 = s.remove(k);
    assert forall|i: int, j: int| 0 <= i < j < s2.len() implies s2[i] != s2[j] by {
        let i0 = if i < k {
            i
        } else {
            i + 1
        };
        let j0 = if j < k {
            j
        } else {
            j + 1
        };
        assert(s2[i] == s[i0] && s2[j] == s[j0]);
    }
}

/// Removing a pending request preserves the engine invariant.
pub proof fn lemma_wf_remove_pending(m: EngineModel, k: int)
    requires
        model_wf(m),
        0 <= k < m.pending.len(),
    ensures
        model_wf(EngineModel { pending: m.pending.remove(k), ..m }),
{
    let p2 = m.pending.remove(k);
    assert forall|i: int, j: int| 0 <= i < j < p2.len() implies p2[i].0 != p2[j].0 by {
        let i0 = if i < k {
            i
        } else {
            i + 1
        };
        let j0 = if j < k {
            j
        } else {
            j + 1
        };
        assert(p2[i] == m.pending[i0] && p2[j] == m.pending[j0]);
    }
    assert forall|i: int| 0 <= i < p2.len() implies (#[trigger] p2[i]).0 < m.next_request by {
        let i0 = if i < k {
            i
        } else {
            i + 1
        };
        assert(p2[i] == m.pending[i0]);
    }
}

/// Dropping one peer's requests keeps the rest well-formed: ids stay below
/// the counter, stay pairwise distinct, and every kept entry was pending.
pub proof fn lemma_keep_other_wf(ps: Seq<(u64, Seq<char>)>, peer: Seq<char>, next: u64)
    requires
        forall|i: int| 0 <= i < ps.len() ==> (#[trigger] ps[i]).0 < next,
        forall|i: int, j: int| 0 <= i < j < ps.len() ==> ps[i].0 != ps[j].0,
    ensures
        ({
            let kept = keep_other_peer(ps, peer);
            &&& forall|i: int| 0 <= i < kept.len() ==> (#[trigger] kept[i]).0 < next
            &&& forall|i: int, j: int| 0 <= i < j < kept.len() ==> kept[i].0 != kept[j].0
            &&& forall|i: int| 0 <= i < kept.len() ==> ps.contains(#[trigger] kept[i])
        }),
    decreases ps.len(),
{
    if ps.len() > 0 {
        let rest = ps.drop_first();
        assert(forall|i: int| 0 <= i < rest.len() ==> (#[trigger] rest[i]).0 < next);
        assert(forall|i: int, j: int| 0 <= i < j < rest.len() ==> rest[i].0 != rest[j].0);
        lemma_keep_other_wf(rest, peer, next);
        let kept_rest = keep_other_peer(rest, peer);
        let kept = keep_other_peer(ps, peer);
        assert forall|i: int| 0 <= i < kept_rest.len() implies ps.contains(
            #[trigger] kept_rest[i]) by {
            assert(rest.contains(kept_rest[i]));
            let j = choose|j: int| 0 <= j < rest.len() && rest[j] == kept_rest[i];
            assert(ps[j + 1] == kept_rest[i]);
        }
        if ps[0].1 == peer {
            assert(kept == kept_rest);
        } else {
            assert(kept == seq![ps[0]] + kept_rest);
            assert forall|i: int, j: int| 0 <= i < j < kept.len() implies kept[i].0 != kept[
                j].0 by {
                if i == 0 {
                    assert(kept[0] == ps[0] && kept[j] == kept_rest[j - 1]);
                    assert(rest.contains(kept_rest[j - 1]));
                    let w = choose|w: int| 0 <= w < rest.len() && rest[w] == kept_rest[j - 1];
                    assert(ps[w + 1] == kept_rest[j - 1]);
                } else {
                    assert(kept[i] == kept_rest[i - 1] && kept[j] == kept_rest[j - 1]);
                }
            }
        }
    }
}

/// Subscribing twice to any topic: the second call reports
/// `AlreadySubscribed` and leaves the subscription set unchanged.
pub proof fn lemma_subscribe_twice(m: EngineModel, t: Seq<char>)
    ensures
        ({
            let (m1, r1) = spec_subscribe(m, t);
            let (m2, r2) = spec_subscribe(m1, t);
            &&& r2 == Err::<(), EngineError>(EngineError::AlreadySubscribed)
            &&& m2 == m1
        }),
{
    let (m1, r1) = spec_subscribe(m, t);
    if !m.topics.contains(t) {
        assert(m1.topics[m.topics.len() as int] == t);
        assert(m1.topics.contains(t));
    }
}

/// Starting twice: whenever the first start succeeds, the second reports
/// `AlreadyRunning` and changes nothing, so the pair binds one listener, not
/// two.
pub proof fn lemma_start_twice(m: EngineModel, ok1: bool, ok2: bool)
    ensures
        ({
            let (m1, r1) = spec_start(m, ok1);
            let (m2, r2) = spec_start(m1, ok2);
            r1 is Ok ==> {
                &&& r2 == Err::<(), EngineError>(EngineError::AlreadyRunning)
                &&& m2 == m1
            }
        }),
{
}

/// Delivering the same topic and byte-identical payload twice: the second
/// arrival is dropped and the state does not move; a payload that differs is
/// a distinct message and is delivered on its own.
pub proof fn lemma_deliver_dedup(m: EngineModel, t: Seq<char>, p: Seq<u8>, q: Seq<u8>)
    requires
        p != q,
        !m.seen.contains((t, p)),
        !m.seen.contains((t, q)),
    ensures
        ({
            let (m1, d1) = spec_deliver(m, t, p);
            let (m1b, d2) = spec_deliver(m1, t, p);
            let (m2, d3) = spec_deliver(m1, t, q);
            &&& d1 == true
            &&& d2 == false && m1b == m1
            &&& d3 == true
        }),
{
    let (m1, d1) = spec_deliver(m, t, p);
    assert(m1.seen[m.seen.len() as int] == (t, p));
    assert(m1.seen.contains((t, p)));
    assert(!m1.seen.contains((t, q))) by {
        if m1.seen.contains((t, q)) {
            let i = choose|i: int| 0 <= i < m1.seen.len() && m1.seen[i] == (t, q);
            assert(i < m.seen.len() ==> m.seen[i] == (t, q));
        }
    }
}

/// A channel accepts one answer: after an inbound request opens it and one
/// acknowledgement goes out on it, a second answer on the same channel is
/// refused and moves nothing.
pub proof fn lemma_answer_once(m: EngineModel, ch: u64)
    requires
        model_wf(m),
    ensures
        ({
            let m1 = spec_inbound(m, ch);
            let (m2, r1) = spec_send_ack(m1, ch);
            let (m3, r2) = spec_send_ack(m2, ch);
            &&& r1 is Ok
            &&& r2 == Err::<(), EngineError>(EngineError::TransportError)
            &&& m3 == m2
        }),
{
    let m1 = spec_inbound(m, ch);
    if !m.channels.contains(ch) {
        assert(m1.channels[m.channels.len() as int] == ch);
    }
    assert(m1.channels.contains(ch));
    let k = find_elem(m1.channels, ch);
    lemma_find_elem_props(m1.channels, ch);
    let (m2, r1) = spec_send_ack(m1, ch);
    assert(seq_unique(m1.channels)) by {
        if m.channels.contains(ch) {
        } else {
            lemma_unique_push(m.channels, ch);
        }
    }
    assert(!m2.channels.contains(ch)) by {
        if m2.channels.contains(ch) {
            let w = choose|w: int| 0 <= w < m2.channels.len() && m2.channels[w] == ch;
            let w0 = if w < k {
                w
            } else {
                w + 1
            };
            assert(m2.channels[w] == m1.channels[w0]);
        }
    }
}

/// Where a sequence contains `x`, `find_elem` lands on an occurrence.
proof fn lemma_find_elem_props<A>(s: Seq<A>, x: A)
    requires
        s.contains(x),
    ensures
        0 <= find_elem(s, x) < s.len(),
        s[find_elem(s, x)] == x,
    decreases s.len(),
{
    if s.len() > 0 && s[0] != x {
        assert(s.drop_first().contains(x)) by {
            let i = choose|i: int| 0 <= i < s.len() && s[i] == x;
            assert(s.drop_first()[i - 1] == x);
        }
        lemma_find_elem_props(s.drop_first(), x);
    }
}

/// Resolving a request destroys exactly its pending entry: afterwards no
/// entry carries the id (nothing leaks), every other request is untouched,
/// and an id that was never pending resolves nothing.
pub proof fn lemma_resolve_exact(m: EngineModel, id: u64)
    requires
        model_wf(m),
    ensures
        ({
            let (m1, known) = spec_resolve(m, id);
            &&& known == (exists|i: int|
                0 <= i < m.pending.len() && (#[trigger] m.pending[i]).0 == id)
            &&& forall|i: int| 0 <= i < m1.pending.len() ==> (#[trigger] m1.pending[i]).0 != id
            &&& forall|i: int|
                0 <= i < m.pending.len() && (#[trigger] m.pending[i]).0 != id
                    ==> m1.pending.contains(m.pending[i])
            &&& !known ==> m1 == m
        }),
{
    let k = find_pending(m.pending, id);
    if exists|i: int| 0 <= i < m.pending.len() && (#[trigger] m.pending[i]).0 == id {
        let w = choose|i: int| 0 <= i < m.pending.len() && (#[trigger] m.pending[i]).0 == id;
        lemma_first_match_exists(m.pending, id, w);
        let first = choose|i: int|
            0 <= i <= w && m.pending[i].0 == id && forall|j: int|
                0 <= j < i ==> (#[trigger] m.pending[j]).0 != id;
        lemma_find_pending_at(m.pending, id, first);
        let m1 = spec_resolve(m, id).0;
        assert forall|i: int| 0 <= i < m1.pending.len() implies (#[trigger] m1.pending[i]).0
            != id by {
            if i < first {
                assert(m1.pending[i] == m.pending[i]);
            } else {
                assert(m1.pending[i] == m.pending[i + 1]);
            }
        }
        assert forall|i: int|
            0 <= i < m.pending.len() && (#[trigger] m.pending[i]).0 != id implies m1
            .pending.contains(m.pending[i]) by {
            if i < first {
                assert(m1.pending[i] == m.pending[i]);
            } else {
                assert(m1.pending[i - 1] == m.pending[i]);
            }
        }
    } else {
        lemma_find_pending_none(m.pending, id);
    }
}

/// Among the indices up to `w` that match `id`, there is a first one.
proof fn lemma_first_match_exists(ps: Seq<(u64, Seq<char>)>, id: u64, w: int)
    requires
        0 <= w < ps.len(),
        ps[w].0 == id,
    ensures
        exists|i: int|
            0 <= i <= w && ps[i].0 == id && forall|j: int|
                0 <= j < i ==> (#[trigger] ps[j]).0 != id,
    decreases w,
{
    if exists|j: int| 0 <= j < w && (#[trigger] ps[j]).0 == id {
        let w2 = choose|j: int| 0 <= j < w && (#[trigger] ps[j]).0 == id;
        lemma_first_match_exists(ps, id, w2);
        let i = choose|i: int|
            0 <= i <= w2 && ps[i].0 == id && forall|j: int|
                0 <= j < i ==> (#[trigger] ps[j]).0 != id;
        assert(0 <= i <= w && ps[i].0 == id);
    } else {
        assert(forall|j: int| 0 <= j < w ==> (#[trigger] ps[j]).0 != id);
    }
}

/// Closing a connection leaves no pending request to that peer and keeps
/// every request to any other peer, and the failed ids are exactly those that
/// were pending to it.
pub proof fn lemma_connection_closed_exact(m: EngineModel, peer: Seq<char>)
    ensures
        ({
            let (m1, failed) = spec_connection_closed(m, peer);
            &&& forall|i: int|
                0 <= i < m1.pending.len() ==> (#[trigger] m1.pending[i]).1 != peer
            &&& forall|i: int|
                0 <= i < m.pending.len() && (#[trigger] m.pending[i]).1 != peer
                    ==> m1.pending.contains(m.pending[i])
            &&& forall|i: int|
                0 <= i < m.pending.len() && (#[trigger] m.pending[i]).1 == peer
                    ==> failed.contains(m.pending[i].0)
            &&& m1.pending.len() + failed.len() == m.pending.len()
        }),
    decreases m.pending.len(),
{
    lemma_keep_other_exact(m.pending, peer);
}

/// The split of the pending list by peer is exact.
proof fn lemma_keep_other_exact(ps: Seq<(u64, Seq<char>)>, peer: Seq<char>)
    ensures
        ({
            let kept = keep_other_peer(ps, peer);
            let failed = ids_of_peer(ps, peer);
            &&& forall|i: int| 0 <= i < kept.len() ==> (#[trigger] kept[i]).1 != peer
            &&& forall|i: int|
                0 <= i < ps.len() && (#[trigger] ps[i]).1 != peer ==> kept.contains(ps[i])
            &&& forall|i: int|
                0 <= i < ps.len() && (#[trigger] ps[i]).1 == peer ==> failed.contains(ps[i].0)
            &&& kept.len() + failed.len() == ps.len()
        }),
    decreases ps.len(),
{
    if ps.len() > 0 {
        lemma_keep_other_exact(ps.drop_first(), peer);
        let kept = keep_other_peer(ps, peer);
        let failed = ids_of_peer(ps, peer);
        let kept_rest = keep_other_peer(ps.drop_first(), peer);
        let failed_rest = ids_of_peer(ps.drop_first(), peer);
        assert forall|i: int|
            0 <= i < ps.len() && (#[trigger] ps[i]).1 != peer implies kept.contains(
            ps[i]) by {
            if i == 0 {
                assert(kept[0] == ps[0]);
            } else {
                assert(ps.drop_first()[i - 1] == ps[i]);
                assert(kept_rest.contains(ps[i]));
                let j = choose|j: int| 0 <= j < kept_rest.len() && kept_rest[j] == ps[i];
                if ps[0].1 == peer {
                    assert(kept[j] == ps[i]);
                } else {
                    assert(kept[j + 1] == ps[i]);
                }
            }
        }
        assert forall|i: int|
            0 <= i < ps.len() && (#[trigger] ps[i]).1 == peer implies failed.contains(
            ps[i].0) by {
            if i == 0 {
                assert(failed[0] == ps[0].0);
            } else {
                assert(ps.drop_first()[i - 1] == ps[i]);
                assert(failed_rest.contains(ps[i].0));
                let j = choose|j: int| 0 <= j < failed_rest.len() && failed_rest[j] == ps[i].0;
                if ps[0].1 == peer {
                    assert(failed[j + 1] == ps[i].0);
                } else {
                    assert(failed[j] == ps[i].0);
                }
            }
        }
        assert forall|i: int| 0 <= i < kept.len() implies (#[trigger] kept[i]).1 != peer by {
            if ps[0].1 == peer {
                assert(kept[i] == kept_rest[i]);
            } else {
                if i > 0 {
                    assert(kept[i] == kept_rest[i - 1]);
                }
            }
        }
    }
}

} // verus!
