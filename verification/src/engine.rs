//! The node engine: single owner of the node's protocol state.
//!
//! One task owns a `NodeEngine` and alternates between applying caller
//! commands and handling network events; nothing else touches the state, so
//! no lock is ever held across the drain loop.  Every method is proved to
//! follow the engine's state machine (`crate::model`) step for step: the
//! caller performs the returned instruction (dial, publish, send) and feeds
//! what the network answers back in as an `Event`.

use vstd::prelude::*;
use crate::codec::{DecodeError, MAX_FRAME_BYTES, parse_reaction, reaction_bytes, post_bytes,
    ack_bytes, decode_reaction, encode_reaction, encode_ack, encode_post};
use crate::json::{json_string_array, to_json_string_array};
use crate::messages::{SignedReaction, SignedAck, SignedPost};
use crate::model::{NodeState, EngineError, EngineModel, model_wf, seq_unique, find_elem,
    find_pending, lemma_find_elem_at, lemma_find_elem_none, lemma_find_pending_at,
    lemma_find_pending_none, keep_other_peer, ids_of_peer, spec_subscribe, spec_start, spec_stop,
    spec_connect, spec_send_reaction, spec_send_ack, spec_deliver, spec_resolve, spec_inbound,
    spec_connection_established, spec_connection_closed, spec_discover, spec_expire,
    spec_new_listener, lemma_unique_push, lemma_unique_remove, lemma_wf_remove_pending,
    lemma_keep_other_wf};
use crate::transport::{addr_parses, peer_parses, multiaddr_ok, peer_id_ok};

verus! {

/// A request sent and not yet resolved; destroyed by exactly one of: its
/// response, a failure, the peer's disconnect, or `stop`.
#[derive(Debug, Clone)]
pub struct PendingRequest {
    /// Correlation id, unique among live requests.
    pub id: u64,
    /// The peer the request went to.
    pub peer: String,
}

/// A broadcast message already delivered once: its topic and its bytes.
#[derive(Debug, Clone)]
pub struct SeenMessage {
    pub topic: String,
    pub payload: Vec<u8>,
}

/// Instruction to dial a peer at a validated address.
#[derive(Debug, Clone)]
pub struct Dial {
    pub addr: String,
}

/// Instruction to broadcast an encoded post on a topic.
#[derive(Debug, Clone)]
pub struct Publish {
    pub topic: String,
    pub data: Vec<u8>,
}

/// Instruction to send an encoded reaction to a peer, correlated by
/// `request_id`.
#[derive(Debug, Clone)]
pub struct SendRequest {
    pub request_id: u64,
    pub peer: String,
    pub data: Vec<u8>,
}

/// Instruction to answer an inbound channel with an encoded acknowledgement.
#[derive(Debug, Clone)]
pub struct SendResponse {
    pub channel: u64,
    pub data: Vec<u8>,
}

/// One network event, one variant per composed behavior, matched
/// exhaustively by the drain step.
#[derive(Debug)]
pub enum Event {
    /// A broadcast message arrived on a topic from a peer.
    GossipMessage { topic: String, payload: Vec<u8>, from: String },
    /// A peer subscribed to a topic.
    PeerSubscribed { peer: String, topic: String },
    /// A peer unsubscribed from a topic.
    PeerUnsubscribed { peer: String, topic: String },
    /// Discovery advertised a peer.
    Discovered { peer: String },
    /// A peer's advertisement lapsed.
    Expired { peer: String },
    /// A connection to a peer is up.
    ConnectionEstablished { peer: String },
    /// A connection to a peer is gone.
    ConnectionClosed { peer: String },
    /// A listener was bound.
    NewListenAddr { addr: String },
    /// An inbound reaction arrived; its response channel awaits one answer.
    InboundRequest { channel: u64, reaction: SignedReaction },
    /// The response to an outbound request arrived.
    ResponseReceived { request_id: u64, ack: SignedAck },
    /// An outbound request failed (timeout, refusal, or transport error).
    OutboundFailure { request_id: u64 },
    /// A peer sent bytes that decode to no message; reported, not fatal.
    DecodeFailed { error: DecodeError },
}

/// What one event amounted to; the drain loop acts on it and continues.
#[derive(Debug)]
pub enum Outcome {
    /// A fresh broadcast message: deliver it, attributed to its sender.
    Delivered { topic: String, payload: Vec<u8>, from: String },
    /// A byte-identical repeat of a delivered message: dropped.
    DuplicateDropped,
    /// An inbound reaction to verify, store, and answer exactly once via
    /// `send_ack` on the given channel.
    ReactionToHandle { channel: u64, reaction: SignedReaction },
    /// A response resolved a request; `known` is false for a stray id.
    AckDelivered { request_id: u64, known: bool, ack: SignedAck },
    /// A failure resolved a request; `known` is false for a stray id.
    RequestFailed { request_id: u64, known: bool },
    /// A disconnect resolved every pending request to that peer.
    PendingDropped { request_ids: Vec<u64> },
    /// A malformed frame was reported; the loop continues.
    FrameRejected { error: DecodeError },
    /// Bookkeeping only.
    Noted,
}

/// The views of a list of strings.
pub open spec fn views_of_strings(ss: Seq<String>) -> Seq<Seq<char>> {
    ss.map_values(|s: String| s@)
}

/// The views of the seen-message list.
pub open spec fn seen_views(s: Seq<SeenMessage>) -> Seq<(Seq<char>, Seq<u8>)> {
    s.map_values(|e: SeenMessage| (e.topic@, e.payload@))
}

/// The views of the pending-request list.
pub open spec fn pending_views(ps: Seq<PendingRequest>) -> Seq<(u64, Seq<char>)> {
    ps.map_values(|p: PendingRequest| (p.id, p.peer@))
}

/// The engine.  Fields mirror `EngineModel` one for one; `self@` is the
/// abstract state.
pub struct NodeEngine {
    state: NodeState,
    local_peer: String,
    topics: Vec<String>,
    seen: Vec<SeenMessage>,
    pending: Vec<PendingRequest>,
    next_request_id: u64,
    open_channels: Vec<u64>,
    connected: Vec<String>,
    discovered: Vec<String>,
    listeners: u64,
}

impl View for NodeEngine {
    type V = EngineModel;

    closed spec fn view(&self) -> EngineModel {
        EngineModel {
            state: self.state,
            local: self.local_peer@,
            topics: views_of_strings(self.topics@),
            seen: seen_views(self.seen@),
            pending: pending_views(self.pending@),
            next_request: self.next_request_id,
            channels: self.open_channels@,
            connected: views_of_strings(self.connected@),
            discovered: views_of_strings(self.discovered@),
            listeners: self.listeners,
        }
    }
}

/// Index of the first string in `v` whose text is that of `x`, tied to
/// `find_elem` over the views.
fn find_string_index(v: &Vec<String>, x: &String) -> (r: Option<usize>)
    ensures
        match r {
            Some(k) => k < v@.len() && find_elem(views_of_strings(v@), x@) == k as int
                && views_of_strings(v@)[k as int] == x@,
            None => find_elem(views_of_strings(v@), x@) == -1 && !views_of_strings(v@).contains(
                x@,
            ),
        },
{
    let ghost vs = views_of_strings(v@);
    let mut i: usize = 0;
    while i < v.len()
        invariant
            i <= v@.len(),
            vs == views_of_strings(v@),
            forall|j: int| 0 <= j < i ==> vs[j] != x@,
        decreases v@.len() - i,
    {
        if v[i] == *x {
            proof {
                lemma_find_elem_at(vs, x@, i as int);
            }
            return Some(i);
        }
        i = i + 1;
    }
    proof {
        lemma_find_elem_none(vs, x@);
        if vs.contains(x@) {
            let w = choose|j: int| 0 <= j < vs.len() && vs[j] == x@;
            assert(vs[w] != x@);
        }
    }
    None
}

/// Index of the first occurrence of `ch` in `v`, tied to `find_elem`.
fn find_channel_index(v: &Vec<u64>, ch: u64) -> (r: Option<usize>)
    ensures
        match r {
            Some(k) => k < v@.len() && find_elem(v@, ch) == k as int && v@[k as int] == ch,
            None => find_elem(v@, ch) == -1 && !v@.contains(ch),
        },
{
    let mut i: usize = 0;
    while i < v.len()
        invariant
            i <= v@.len(),
            forall|j: int| 0 <= j < i ==> v@[j] != ch,
        decreases v@.len() - i,
    {
        if v[i] == ch {
            proof {
                lemma_find_elem_at(v@, ch, i as int);
            }
            return Some(i);
        }
        i = i + 1;
    }
    proof {
        lemma_find_elem_none(v@, ch);
        if v@.contains(ch) {
            let w = choose|j: int| 0 <= j < v@.len() && v@[j] == ch;
            assert(v@[w] != ch);
        }
    }
    None
}

/// Index of the pending request with id `id`, tied to `find_pending`.
fn find_pending_index(v: &Vec<PendingRequest>, id: u64) -> (r: Option<usize>)
    ensures
        match r {
            Some(k) => k < v@.len() && find_pending(pending_views(v@), id) == k as int
                && pending_views(v@)[k as int].0 == id,
            None => find_pending(pending_views(v@), id) == -1,
        },
{
    let ghost ps = pending_views(v@);
    let mut i: usize = 0;
    while i < v.len()
        invariant
            i <= v@.len(),
            ps == pending_views(v@),
            forall|j: int| 0 <= j < i ==> (#[trigger] ps[j]).0 != id,
        decreases v@.len() - i,
    {
        if v[i].id == id {
            proof {
                lemma_find_pending_at(ps, id, i as int);
            }
            return Some(i);
        }
        i = i + 1;
    }
    proof {
        lemma_find_pending_none(ps, id);
    }
    None
}

/// Whether the topic/payload pair is in the seen list.
fn seen_contains(v: &Vec<SeenMessage>, topic: &String, payload: &Vec<u8>) -> (r: bool)
    ensures
        r == seen_views(v@).contains((topic@, payload@)),
{
    let ghost sv = seen_views(v@);
    let mut i: usize = 0;
    while i < v.len()
        invariant
            i <= v@.len(),
            sv == seen_views(v@),
            forall|j: int| 0 <= j < i ==> sv[j] != (topic@, payload@),
        decreases v@.len() - i,
    {
        let same_topic = v[i].topic == *topic;
        let same_payload = v[i].payload == *payload;
        if same_topic && same_payload {
            assert(v@[i as int].payload@ =~= payload@);
            assert(sv[i as int] == (topic@, payload@));
            return true;
        }
        assert(sv[i as int] != (topic@, payload@)) by {
            if v@[i as int].payload@ == payload@ {
                assert(v@[i as int].payload@ =~= payload@);
            }
        }
        i = i + 1;
    }
    proof {
        if sv.contains((topic@, payload@)) {
            let w = choose|j: int| 0 <= j < sv.len() && sv[j] == (topic@, payload@);
            assert(sv[w] != (topic@, payload@));
        }
    }
    false
}

/// Copy a list of strings: the point-in-time snapshot handed to callers.
fn clone_strings(v: &Vec<String>) -> (r: Vec<String>)
    ensures
        views_of_strings(r@) == views_of_strings(v@),
{
    let mut out: Vec<String> = Vec::new();
    let mut i: usize = 0;
    while i < v.len()
        invariant
            i <= v@.len(),
            out@.len() == i,
            forall|j: int| 0 <= j < i ==> (#[trigger] out@[j])@ == v@[j]@,
        decreases v@.len() - i,
    {
        out.push(v[i].clone());
        i = i + 1;
    }
    assert(views_of_strings(out@) =~= views_of_strings(v@));
    out
}

impl NodeEngine {
    /// The engine's invariant.
    pub open spec fn wf(&self) -> bool {
        model_wf(self@)
    }

    /// A fresh engine owning the given identity: stopped, nothing
    /// subscribed, nothing seen, nothing pending.
    pub fn new(local_peer: String) -> (r: NodeEngine)
        ensures
            r.wf(),
            r@.state is Stopped,
            r@.local == local_peer@,
            r@.topics == Seq::<Seq<char>>::empty(),
            r@.seen == Seq::<(Seq<char>, Seq<u8>)>::empty(),
            r@.pending == Seq::<(u64, Seq<char>)>::empty(),
            r@.channels == Seq::<u64>::empty(),
            r@.connected == Seq::<Seq<char>>::empty(),
            r@.discovered == Seq::<Seq<char>>::empty(),
            r@.next_request == 0,
            r@.listeners == 0,
    {
        let r = NodeEngine {
            state: NodeState::Stopped,
            local_peer,
            topics: Vec::new(),
            seen: Vec::new(),
            pending: Vec::new(),
            next_request_id: 0,
            open_channels: Vec::new(),
            connected: Vec::new(),
            discovered: Vec::new(),
            listeners: 0,
        };
        assert(views_of_strings(r.topics@) =~= Seq::<Seq<char>>::empty());
        assert(seen_views(r.seen@) =~= Seq::<(Seq<char>, Seq<u8>)>::empty());
        assert(pending_views(r.pending@) =~= Seq::<(u64, Seq<char>)>::empty());
        assert(views_of_strings(r.connected@) =~= Seq::<Seq<char>>::empty());
        assert(views_of_strings(r.discovered@) =~= Seq::<Seq<char>>::empty());
        r
    }

    /// The identity the engine was built with; it never changes.
    pub fn local_peer_id(&self) -> (r: &String)
        ensures
            r@ == self@.local,
    {
        &self.local_peer
    }

    /// How many requests have ever been issued: the next request id.  A
    /// caller checks this against `u64::MAX` before `send_reaction`.
    pub fn requests_issued(&self) -> (r: u64)
        ensures
            r == self@.next_request,
    {
        self.next_request_id
    }

    /// Subscribe to a topic.  A duplicate subscribe is refused as a no-op;
    /// on success the caller must subscribe the broadcast layer to the topic.
    pub fn subscribe_topic(&mut self, topic: &str) -> (r: Result<(), EngineError>)
        requires
            old(self).wf(),
        ensures
            final(self).wf(),
            final(self)@ == spec_subscribe(old(self)@, topic@).0,
            r == spec_subscribe(old(self)@, topic@).1,
    {
        let t = topic.to_owned();
        match find_string_index(&self.topics, &t) {
            Some(_) => Err(EngineError::AlreadySubscribed),
            None => {
                let ghost m = self@;
                self.topics.push(t);
                proof {
                    assert(views_of_strings(self.topics@) =~= m.topics.push(topic@));
                    let m2 = self@;
                    assert forall|i: int, j: int|
                        0 <= i < j < m2.topics.len() implies m2.topics[i] != m2.topics[j] by {
                        if j == m2.topics.len() - 1 {
                            assert(m2.topics[i] == m.topics[i]);
                        }
                    }
                }
                Ok(())
            },
        }
    }

    /// Start the node.  Refused while running, so a second `start` never
    /// binds a second listener; refused on a malformed address with the
    /// state unchanged.  On success the caller must bind one listener at
    /// the address and run the drain loop.
    pub fn start(&mut self, addr: &str) -> (r: Result<(), EngineError>)
        requires
            old(self).wf(),
        ensures
            final(self).wf(),
            final(self)@ == spec_start(old(self)@, addr_parses(addr@)).0,
            r == spec_start(old(self)@, addr_parses(addr@)).1,
    {
        match self.state {
            NodeState::Running => Err(EngineError::AlreadyRunning),
            NodeState::Stopped => {
                if !multiaddr_ok(addr) {
                    Err(EngineError::AddressError)
                } else {
                    self.state = NodeState::Running;
                    Ok(())
                }
            },
        }
    }

    /// Stop the node: release the listener and resolve everything in flight
    /// by cancellation.  Returns whether the node had been running.
    pub fn stop(&mut self) -> (r: bool)
        requires
            old(self).wf(),
        ensures
            final(self).wf(),
            final(self)@ == spec_stop(old(self)@).0,
            r == spec_stop(old(self)@).1,
    {
        match self.state {
            NodeState::Stopped => false,
            NodeState::Running => {
                self.state = NodeState::Stopped;
                self.pending = Vec::new();
                self.open_channels = Vec::new();
                self.connected = Vec::new();
                self.listeners = 0;
                proof {
                    assert(pending_views(self.pending@) =~= Seq::<(u64, Seq<char>)>::empty());
                    assert(views_of_strings(self.connected@) =~= Seq::<Seq<char>>::empty());
                }
                true
            },
        }
    }

    /// Validate a peer address and instruct the caller to dial it.  The
    /// connection, if it comes up, arrives later as an event; the state does
    /// not move here.
    pub fn connect_to_peer(&mut self, addr: &str) -> (r: Result<Dial, EngineError>)
        requires
            old(self).wf(),
        ensures
            final(self).wf(),
            final(self)@ == old(self)@,
            match r {
                Ok(d) => spec_connect(addr_parses(addr@)) is Ok && d.addr@ == addr@,
                Err(e) => spec_connect(addr_parses(addr@)) == Err::<(), EngineError>(e),
            },
    {
        if multiaddr_ok(addr) {
            Ok(Dial { addr: addr.to_owned() })
        } else {
            Err(EngineError::AddressError)
        }
    }

    /// Encode a post and instruct the caller to broadcast it.  Encoding
    /// never fails for an in-memory post and no subscription is required, so
    /// this always succeeds; a transport failure is the caller's to report.
    pub fn publish_post(&self, topic: &str, post: &SignedPost) -> (r: Publish)
        ensures
            r.topic@ == topic@,
            r.data@ == post_bytes(post@),
    {
        Publish { topic: topic.to_owned(), data: encode_post(post) }
    }

    /// Decode a reaction frame, validate the peer identifier, and create the
    /// pending request under a fresh id.  The caller must send the returned
    /// frame and later feed back the response, failure, or disconnect that
    /// resolves the request.
    pub fn send_reaction(&mut self, peer: &str, frame: &Vec<u8>) -> (r: Result<
        SendRequest,
        EngineError,
    >)
        requires
            old(self).wf(),
            old(self)@.next_request < u64::MAX,
        ensures
            final(self).wf(),
            ({
                let frame_ok = frame@.len() <= MAX_FRAME_BYTES && parse_reaction(frame@) is Some;
                let (m2, rr) = spec_send_reaction(
                    old(self)@,
                    peer@,
                    peer_parses(peer@),
                    frame_ok,
                );
                &&& final(self)@ == m2
                &&& match r {
                    Ok(req) => rr is Ok && req.request_id == rr->Ok_0 && req.peer@ == peer@
                        && req.data@ == reaction_bytes(parse_reaction(frame@)->Some_0),
                    Err(e) => rr == Err::<u64, EngineError>(e),
                }
            }),
    {
        let ghost m = self@;
        match decode_reaction(frame) {
            Err(_) => Err(EngineError::DecodeError),
            Ok(reaction) => {
                if !peer_id_ok(peer) {
                    Err(EngineError::AddressError)
                } else {
                    let id = self.next_request_id;
                    let p = peer.to_owned();
                    self.pending.push(PendingRequest { id, peer: p });
                    self.next_request_id = id + 1;
                    let data = encode_reaction(&reaction);
                    proof {
                        assert(pending_views(self.pending@) =~= m.pending.push((id, peer@)));
                        let m2 = self@;
                        assert(forall|i: int|
                            0 <= i < m.pending.len() ==> (#[trigger] m2.pending[i]) == m.pending[i]);
                    }
                    Ok(SendRequest { request_id: id, peer: peer.to_owned(), data })
                }
            },
        }
    }

    /// Answer an inbound channel exactly once.  A second answer on the same
    /// channel is a protocol violation: it is refused, to be logged by the
    /// caller, and the state does not move.
    pub fn send_ack(&mut self, channel: u64, ack: &SignedAck) -> (r: Result<
        SendResponse,
        EngineError,
    >)
        requires
            old(self).wf(),
        ensures
            final(self).wf(),
            final(self)@ == spec_send_ack(old(self)@, channel).0,
            match r {
                Ok(resp) => spec_send_ack(old(self)@, channel).1 is Ok && resp.channel == channel
                    && resp.data@ == ack_bytes(ack@),
                Err(e) => spec_send_ack(old(self)@, channel).1 == Err::<(), EngineError>(e),
            },
    {
        match find_channel_index(&self.open_channels, channel) {
            None => Err(EngineError::TransportError),
            Some(k) => {
                self.open_channels.remove(k);
                Ok(SendResponse { channel, data: encode_ack(ack) })
            },
        }
    }

    /// A point-in-time copy of the connected peers; never a live reference.
    pub fn connected_peers(&self) -> (r: Vec<String>)
        ensures
            views_of_strings(r@) == self@.connected,
    {
        clone_strings(&self.connected)
    }

    /// A point-in-time copy of the discovered peers; never a live reference.
    pub fn discovered_nodes(&self) -> (r: Vec<String>)
        ensures
            views_of_strings(r@) == self@.discovered,
    {
        clone_strings(&self.discovered)
    }

    /// The connected-peers snapshot as one JSON string array, for the
    /// foreign-call boundary.
    pub fn connected_peers_json(&self) -> (r: String)
        ensures
            r@ == json_string_array(self@.connected),
    {
        let peers = clone_strings(&self.connected);
        let ghost dv = peers.deep_view();
        proof {
            assert(dv =~= self@.connected);
        }
        to_json_string_array(&peers)
    }

    /// The discovered-peers snapshot as one JSON string array, for the
    /// foreign-call boundary.
    pub fn discovered_nodes_json(&self) -> (r: String)
        ensures
            r@ == json_string_array(self@.discovered),
    {
        let peers = clone_strings(&self.discovered);
        let ghost dv = peers.deep_view();
        proof {
            assert(dv =~= self@.discovered);
        }
        to_json_string_array(&peers)
    }

    /// Drain one event: match it exhaustively, move the state as the state
    /// machine says, and report what the loop should act on.  No event ends
    /// the loop; a bad frame is reported and the next event is awaited.
    pub fn handle_event(&mut self, ev: Event) -> (out: Outcome)
        requires
            old(self).wf(),
        ensures
            final(self).wf(),
            final(self)@ == spec_event(old(self)@, ev),
            match ev {
                Event::GossipMessage { topic, payload, from } => {
                    if old(self)@.seen.contains((topic@, payload@)) {
                        out is DuplicateDropped
                    } else {
                        out matches Outcome::Delivered { topic: t2, payload: p2, from: f2 }
                            && t2@ == topic@ && p2@ == payload@ && f2@ == from@
                    }
                },
                Event::InboundRequest { channel, reaction } => out matches
                    Outcome::ReactionToHandle { channel: c2, reaction: r2 } && c2 == channel
                    && r2 == reaction,
                Event::ResponseReceived { request_id, ack } => out matches
                    Outcome::AckDelivered { request_id: id2, known, ack: a2 } && id2 == request_id
                    && a2 == ack && known == (find_pending(old(self)@.pending, request_id) != -1),
                Event::OutboundFailure { request_id } => out matches
                    Outcome::RequestFailed { request_id: id2, known } && id2 == request_id
                    && known == (find_pending(old(self)@.pending, request_id) != -1),
                Event::ConnectionClosed { peer } => out matches
                    Outcome::PendingDropped { request_ids } && request_ids@ == ids_of_peer(
                    old(self)@.pending,
                    peer@,
                ),
                Event::DecodeFailed { error } => out matches Outcome::FrameRejected { error: e2 }
                    && e2 == error,
                _ => out is Noted,
            },
    {
        match ev {
            Event::GossipMessage { topic, payload, from } => {
                if seen_contains(&self.seen, &topic, &payload) {
                    Outcome::DuplicateDropped
                } else {
                    let ghost m = self@;
                    let payload_copy = vstd::slice::slice_to_vec(payload.as_slice());
                    self.seen.push(SeenMessage { topic: topic.clone(), payload: payload_copy });
                    proof {
                        assert(seen_views(self.seen@) =~= m.seen.push((topic@, payload@)));
                        lemma_unique_push(m.seen, (topic@, payload@));
                    }
                    Outcome::Delivered { topic, payload, from }
                }
            },
            Event::PeerSubscribed { .. } => Outcome::Noted,
            Event::PeerUnsubscribed { .. } => Outcome::Noted,
            Event::Discovered { peer } => {
                match find_string_index(&self.discovered, &peer) {
                    Some(_) => {},
                    None => {
                        let ghost m = self@;
                        let ghost pv = peer@;
                        self.discovered.push(peer);
                        proof {
                            assert(views_of_strings(self.discovered@) =~= m.discovered.push(pv));
                            lemma_unique_push(m.discovered, pv);
                        }
                    },
                }
                Outcome::Noted
            },
            Event::Expired { peer } => {
                match find_string_index(&self.discovered, &peer) {
                    Some(k) => {
                        let ghost m = self@;
                        self.discovered.remove(k);
                        proof {
                            assert(views_of_strings(self.discovered@) =~= m.discovered.remove(
                                k as int,
                            ));
                            lemma_unique_remove(m.discovered, k as int);
                        }
                    },
                    None => {},
                }
                Outcome::Noted
            },
            Event::ConnectionEstablished { peer } => {
                match find_string_index(&self.connected, &peer) {
                    Some(_) => {},
                    None => {
                        let ghost m = self@;
                        let ghost pv = peer@;
                        self.connected.push(peer);
                        proof {
                            assert(views_of_strings(self.connected@) =~= m.connected.push(pv));
                            lemma_unique_push(m.connected, pv);
                        }
                    },
                }
                Outcome::Noted
            },
            Event::ConnectionClosed { peer } => {
                let ghost m = self@;
                match find_string_index(&self.connected, &peer) {
                    Some(k) => {
                        self.connected.remove(k);
                        proof {
                            assert(views_of_strings(self.connected@) =~= m.connected.remove(
                                k as int,
                            ));
                            lemma_unique_remove(m.connected, k as int);
                        }
                    },
                    None => {},
                }
                let request_ids = self.drop_pending_to(&peer);
                Outcome::PendingDropped { request_ids }
            },
            Event::NewListenAddr { .. } => {
                if self.listeners < u64::MAX {
                    self.listeners = self.listeners + 1;
                }
                Outcome::Noted
            },
            Event::InboundRequest { channel, reaction } => {
                match find_channel_index(&self.open_channels, channel) {
                    Some(_) => {},
                    None => {
                        let ghost m = self@;
                        self.open_channels.push(channel);
                        proof {
                            lemma_unique_push(m.channels, channel);
                        }
                    },
                }
                Outcome::ReactionToHandle { channel, reaction }
            },
            Event::ResponseReceived { request_id, ack } => {
                let known = self.resolve_pending(request_id);
                Outcome::AckDelivered { request_id, known, ack }
            },
            Event::OutboundFailure { request_id } => {
                let known = self.resolve_pending(request_id);
                Outcome::RequestFailed { request_id, known }
            },
            Event::DecodeFailed { error } => Outcome::FrameRejected { error },
        }
    }

    /// Resolve the pending request with the given id, if any.
    fn resolve_pending(&mut self, request_id: u64) -> (known: bool)
        requires
            old(self).wf(),
        ensures
            final(self).wf(),
            final(self)@ == spec_resolve(old(self)@, request_id).0,
            known == spec_resolve(old(self)@, request_id).1,
            known == (find_pending(old(self)@.pending, request_id) != -1),
    {
        match find_pending_index(&self.pending, request_id) {
            None => false,
            Some(k) => {
                let ghost m = self@;
                self.pending.remove(k);
                proof {
                    assert(pending_views(self.pending@) =~= m.pending.remove(k as int));
                    lemma_wf_remove_pending(m, k as int);
                }
                true
            },
        }
    }

    /// Remove every pending request to `peer`, returning their ids: each is
    /// resolved by the disconnect, none is silently forgotten.
    fn drop_pending_to(&mut self, peer: &String) -> (failed: Vec<u64>)
        requires
            old(self).wf(),
        ensures
            final(self).wf(),
            final(self)@ == (EngineModel {
                pending: keep_other_peer(old(self)@.pending, peer@),
                ..old(self)@
            }),
            failed@ == ids_of_peer(old(self)@.pending, peer@),
    {
        let ghost ps = pending_views(self.pending@);
        let mut kept: Vec<PendingRequest> = Vec::new();
        let mut failed: Vec<u64> = Vec::new();
        let mut i: usize = 0;
        proof {
            assert(ps.skip(0) =~= ps);
            assert(pending_views(kept@) + keep_other_peer(ps, peer@) =~= keep_other_peer(
                ps,
                peer@,
            ));
            assert(failed@ + ids_of_peer(ps, peer@) =~= ids_of_peer(ps, peer@));
        }
        while i < self.pending.len()
            invariant
                i <= self.pending@.len(),
                ps == pending_views(self.pending@),
                keep_other_peer(ps, peer@) == pending_views(kept@) + keep_other_peer(
                    ps.skip(i as int),
                    peer@,
                ),
                ids_of_peer(ps, peer@) == failed@ + ids_of_peer(ps.skip(i as int), peer@),
            decreases self.pending@.len() - i,
        {
            let ghost tail = ps.skip(i as int);
            proof {
                assert(tail[0] == ps[i as int]);
                assert(tail.drop_first() =~= ps.skip(i as int + 1));
            }
            let entry_id = self.pending[i].id;
            let entry_peer = self.pending[i].peer.clone();
            if entry_peer == *peer {
                failed.push(entry_id);
                proof {
                    assert(failed@ + ids_of_peer(ps.skip(i as int + 1), peer@) =~= ids_of_peer(
                        ps,
                        peer@,
                    ));
                    assert(pending_views(kept@) + keep_other_peer(ps.skip(i as int + 1), peer@)
                        =~= keep_other_peer(ps, peer@));
                }
            } else {
                let ghost kept_before = pending_views(kept@);
                kept.push(PendingRequest { id: entry_id, peer: entry_peer });
                proof {
                    assert(pending_views(kept@) =~= kept_before.push(ps[i as int]));
                    assert(pending_views(kept@) + keep_other_peer(ps.skip(i as int + 1), peer@)
                        =~= keep_other_peer(ps, peer@));
                    assert(failed@ + ids_of_peer(ps.skip(i as int + 1), peer@) =~= ids_of_peer(
                        ps,
                        peer@,
                    ));
                }
            }
            i = i + 1;
        }
        proof {
            assert(ps.skip(ps.len() as int) =~= Seq::<(u64, Seq<char>)>::empty());
            assert(pending_views(kept@) + keep_other_peer(ps.skip(ps.len() as int), peer@)
                =~= pending_views(kept@));
            assert(failed@ + ids_of_peer(ps.skip(ps.len() as int), peer@) =~= failed@);
        }
        let ghost m = self@;
        self.pending = kept;
        proof {
            lemma_keep_other_wf(m.pending, peer@, m.next_request);
        }
        failed
    }
}

/// One caller command, submitted over the command queue and applied by the
/// owner task in submission order; callers never touch the state directly.
#[derive(Debug)]
pub enum Command {
    /// Start the node, listening at the address.
    Start { addr: String },
    /// Stop the node.
    Stop,
    /// Dial a peer at the address.
    Connect { addr: String },
    /// Broadcast a post on a topic.
    Publish { topic: String, post: SignedPost },
    /// Subscribe to a topic.
    Subscribe { topic: String },
    /// Send a reaction frame to a peer.
    SendReaction { peer: String, frame: Vec<u8> },
    /// Answer an inbound channel with an acknowledgement.
    SendAck { channel: u64, ack: SignedAck },
    /// The node's own peer identifier.
    QueryLocalPeer,
    /// Snapshot of the connected peers.
    QueryConnected,
    /// Snapshot of the discovered peers.
    QueryDiscovered,
}

/// The answer to one command, sent back on the command's response channel.
#[derive(Debug)]
pub enum CommandOutcome {
    /// Start or subscribe: done, or why not.
    Status(Result<(), EngineError>),
    /// Stop: whether the node had been running.
    Stopped(bool),
    /// Connect: the dial to perform, or why not.
    DialOut(Result<Dial, EngineError>),
    /// Publish: the broadcast to perform.
    PublishOut(Publish),
    /// Send a reaction: the request to send, or why not.
    RequestOut(Result<SendRequest, EngineError>),
    /// Send an acknowledgement: the response to send, or why not.
    ResponseOut(Result<SendResponse, EngineError>),
    /// The node's own peer identifier.
    LocalPeer(String),
    /// A point-in-time peer list.
    Peers(Vec<String>),
}

impl NodeEngine {
    /// Apply one caller command: the single entry point the owner task uses
    /// between events, so commands never contend with the drain loop for a
    /// lock.
    pub fn apply_command(&mut self, cmd: Command) -> (out: CommandOutcome)
        requires
            old(self).wf(),
            cmd matches Command::SendReaction { .. } ==> old(self)@.next_request < u64::MAX,
        ensures
            final(self).wf(),
            match cmd {
                Command::Start { addr } => final(self)@ == spec_start(
                    old(self)@,
                    addr_parses(addr@),
                ).0 && out == CommandOutcome::Status(spec_start(old(self)@, addr_parses(addr@)).1),
                Command::Stop => final(self)@ == spec_stop(old(self)@).0 && out
                    == CommandOutcome::Stopped(spec_stop(old(self)@).1),
                Command::Connect { addr } => final(self)@ == old(self)@ && (out matches
                    CommandOutcome::DialOut(r) && (match r {
                    Ok(d) => spec_connect(addr_parses(addr@)) is Ok && d.addr@ == addr@,
                    Err(e) => spec_connect(addr_parses(addr@)) == Err::<(), EngineError>(e),
                })),
                Command::Publish { topic, post } => final(self)@ == old(self)@ && (out matches
                    CommandOutcome::PublishOut(p) && p.topic@ == topic@ && p.data@ == post_bytes(
                    post@,
                )),
                Command::Subscribe { topic } => final(self)@ == spec_subscribe(
                    old(self)@,
                    topic@,
                ).0 && out == CommandOutcome::Status(spec_subscribe(old(self)@, topic@).1),
                Command::SendReaction { peer, frame } => ({
                    let frame_ok = frame@.len() <= MAX_FRAME_BYTES && parse_reaction(frame@)
                        is Some;
                    let (m2, rr) = spec_send_reaction(
                        old(self)@,
                        peer@,
                        peer_parses(peer@),
                        frame_ok,
                    );
                    &&& final(self)@ == m2
                    &&& out matches CommandOutcome::RequestOut(r) && (match r {
                        Ok(req) => rr is Ok && req.request_id == rr->Ok_0 && req.peer@ == peer@
                            && req.data@ == reaction_bytes(parse_reaction(frame@)->Some_0),
                        Err(e) => rr == Err::<u64, EngineError>(e),
                    })
                }),
                Command::SendAck { channel, ack } => final(self)@ == spec_send_ack(
                    old(self)@,
                    channel,
                ).0 && (out matches CommandOutcome::ResponseOut(r) && (match r {
                    Ok(resp) => spec_send_ack(old(self)@, channel).1 is Ok && resp.channel
                        == channel && resp.data@ == ack_bytes(ack@),
                    Err(e) => spec_send_ack(old(self)@, channel).1 == Err::<(), EngineError>(e),
                })),
                Command::QueryLocalPeer => final(self)@ == old(self)@ && (out matches
                    CommandOutcome::LocalPeer(s) && s@ == old(self)@.local),
                Command::QueryConnected => final(self)@ == old(self)@ && (out matches
                    CommandOutcome::Peers(v) && views_of_strings(v@) == old(self)@.connected),
                Command::QueryDiscovered => final(self)@ == old(self)@ && (out matches
                    CommandOutcome::Peers(v) && views_of_strings(v@) == old(self)@.discovered),
            },
    {
        match cmd {
            Command::Start { addr } => CommandOutcome::Status(self.start(addr.as_str())),
            Command::Stop => CommandOutcome::Stopped(self.stop()),
            Command::Connect { addr } => CommandOutcome::DialOut(
                self.connect_to_peer(addr.as_str()),
            ),
            Command::Publish { topic, post } => CommandOutcome::PublishOut(
                self.publish_post(topic.as_str(), &post),
            ),
            Command::Subscribe { topic } => CommandOutcome::Status(
                self.subscribe_topic(topic.as_str()),
            ),
            Command::SendReaction { peer, frame } => CommandOutcome::RequestOut(
                self.send_reaction(peer.as_str(), &frame),
            ),
            Command::SendAck { channel, ack } => CommandOutcome::ResponseOut(
                self.send_ack(channel, &ack),
            ),
            Command::QueryLocalPeer => CommandOutcome::LocalPeer(self.local_peer_id().clone()),
            Command::QueryConnected => CommandOutcome::Peers(self.connected_peers()),
            Command::QueryDiscovered => CommandOutcome::Peers(self.discovered_nodes()),
        }
    }
}

/// The state part of handling one event: one transition of the state
/// machine per event variant.
pub open spec fn spec_event(m: EngineModel, ev: Event) -> EngineModel {
    match ev {
        Event::GossipMessage { topic, payload, .. } => spec_deliver(m, topic@, payload@).0,
        Event::PeerSubscribed { .. } => m,
        Event::PeerUnsubscribed { .. } => m,
        Event::Discovered { peer } => spec_discover(m, peer@),
        Event::Expired { peer } => spec_expire(m, peer@),
        Event::ConnectionEstablished { peer } => spec_connection_established(m, peer@),
        Event::ConnectionClosed { peer } => spec_connection_closed(m, peer@).0,
        Event::NewListenAddr { .. } => spec_new_listener(m),
        Event::InboundRequest { channel, .. } => spec_inbound(m, channel),
        Event::ResponseReceived { request_id, .. } => spec_resolve(m, request_id).0,
        Event::OutboundFailure { request_id } => spec_resolve(m, request_id).0,
        Event::DecodeFailed { .. } => m,
    }
}

} // verus!
