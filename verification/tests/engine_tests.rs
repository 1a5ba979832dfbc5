//! The node engine, driven as the owner task would drive it: commands in,
//! events back, outcomes observed.

use mycelium::codec::{encode_reaction, DecodeError};
use mycelium::engine::{Command, CommandOutcome, Event, NodeEngine, Outcome};
use mycelium::messages::{make_ack, SignedAck, SignedReaction};
use mycelium::model::EngineError;

fn engine(name: &str) -> NodeEngine {
    NodeEngine::new(name.to_owned())
}

fn sample_reaction() -> SignedReaction {
    SignedReaction {
        content_ref: vec![1, 2, 3],
        kind: 7,
        signer_id: vec![9, 9],
        signature: vec![4, 5, 6, 7],
    }
}

fn sample_ack() -> SignedAck {
    SignedAck {
        content_ref: vec![1, 2, 3],
        signer_id: vec![8],
        signature: vec![5],
    }
}

fn valid_peer() -> String {
    libp2p::identity::Keypair::generate_ed25519()
        .public()
        .to_peer_id()
        .to_string()
}

#[test]
fn subscribe_then_subscribe_reports_already_subscribed() {
    let mut e = engine("a");
    assert_eq!(e.subscribe_topic("feed"), Ok(()));
    assert_eq!(e.subscribe_topic("feed"), Err(EngineError::AlreadySubscribed));
    // Another topic is untouched by the refusal.
    assert_eq!(e.subscribe_topic("other"), Ok(()));
    assert_eq!(e.subscribe_topic("feed"), Err(EngineError::AlreadySubscribed));
}

#[test]
fn start_while_running_reports_already_running() {
    let mut e = engine("a");
    assert_eq!(e.start("/ip4/127.0.0.1/tcp/0"), Ok(()));
    assert_eq!(e.start("/ip4/127.0.0.1/tcp/0"), Err(EngineError::AlreadyRunning));
    // One listener came up for the one successful start.
    match e.handle_event(Event::NewListenAddr { addr: "/ip4/127.0.0.1/tcp/4001".to_owned() }) {
        Outcome::Noted => {}
        other => panic!("unexpected outcome: {:?}", other),
    }
}

#[test]
fn start_with_malformed_address_reports_address_error() {
    let mut e = engine("a");
    assert_eq!(e.start("not an address"), Err(EngineError::AddressError));
    // The failure left the node stopped: a good start still works.
    assert_eq!(e.start("/ip4/127.0.0.1/tcp/0"), Ok(()));
}

#[test]
fn stop_reports_whether_it_was_running() {
    let mut e = engine("a");
    assert!(!e.stop());
    assert_eq!(e.start("/ip4/127.0.0.1/tcp/0"), Ok(()));
    assert!(e.stop());
    assert!(!e.stop());
    // Stopped and started again: the cycle is the only state machine.
    assert_eq!(e.start("/ip4/127.0.0.1/tcp/0"), Ok(()));
}

#[test]
fn connect_validates_the_address() {
    let mut e = engine("a");
    let dial = e.connect_to_peer("/ip4/10.0.0.1/tcp/4001").expect("valid address");
    assert_eq!(dial.addr, "/ip4/10.0.0.1/tcp/4001");
    assert_eq!(
        e.connect_to_peer("10.0.0.1:4001").map(|d| d.addr),
        Err(EngineError::AddressError)
    );
}

#[test]
fn publish_encodes_the_post() {
    let e = engine("a");
    let post = mycelium::messages::SignedPost {
        content: b"hello".to_vec(),
        author_id: vec![1],
        signature: vec![2],
    };
    let p = e.publish_post("feed", &post);
    assert_eq!(p.topic, "feed");
    assert_eq!(mycelium::codec::decode_post(&p.data), Ok(post));
}

#[test]
fn send_reaction_rejects_a_bad_frame() {
    let mut e = engine("a");
    let peer = valid_peer();
    let r = e.send_reaction(&peer, &vec![1, 2, 3]);
    assert!(matches!(r, Err(EngineError::DecodeError)));
}

#[test]
fn send_reaction_rejects_a_bad_peer() {
    let mut e = engine("a");
    let frame = encode_reaction(&sample_reaction());
    let r = e.send_reaction("not a peer id", &frame);
    assert!(matches!(r, Err(EngineError::AddressError)));
}

#[test]
fn send_reaction_uses_fresh_ids() {
    let mut e = engine("a");
    let peer = valid_peer();
    let frame = encode_reaction(&sample_reaction());
    let r0 = e.send_reaction(&peer, &frame).expect("first request");
    let r1 = e.send_reaction(&peer, &frame).expect("second request");
    assert_eq!(r0.request_id, 0);
    assert_eq!(r1.request_id, 1);
    assert_eq!(r0.peer, peer);
    assert_eq!(r0.data, frame);
}

#[test]
fn timeout_resolves_the_request_and_leaks_nothing() {
    let mut e = engine("a");
    let peer = valid_peer();
    let frame = encode_reaction(&sample_reaction());
    let req = e.send_reaction(&peer, &frame).expect("request");
    match e.handle_event(Event::OutboundFailure { request_id: req.request_id }) {
        Outcome::RequestFailed { request_id, known } => {
            assert_eq!(request_id, req.request_id);
            assert!(known);
        }
        other => panic!("unexpected outcome: {:?}", other),
    }
    // The request reached its one resolution: a second failure is a stray.
    match e.handle_event(Event::OutboundFailure { request_id: req.request_id }) {
        Outcome::RequestFailed { known, .. } => assert!(!known),
        other => panic!("unexpected outcome: {:?}", other),
    }
}

#[test]
fn response_resolves_the_request_once() {
    let mut e = engine("a");
    let peer = valid_peer();
    let frame = encode_reaction(&sample_reaction());
    let req = e.send_reaction(&peer, &frame).expect("request");
    match e.handle_event(Event::ResponseReceived { request_id: req.request_id, ack: sample_ack() })
    {
        Outcome::AckDelivered { known, ack, .. } => {
            assert!(known);
            assert_eq!(ack, sample_ack());
        }
        other => panic!("unexpected outcome: {:?}", other),
    }
    match e.handle_event(Event::ResponseReceived { request_id: req.request_id, ack: sample_ack() })
    {
        Outcome::AckDelivered { known, .. } => assert!(!known),
        other => panic!("unexpected outcome: {:?}", other),
    }
}

#[test]
fn disconnect_fails_every_request_to_that_peer() {
    let mut e = engine("a");
    let peer_one = valid_peer();
    let peer_two = valid_peer();
    let frame = encode_reaction(&sample_reaction());
    let a = e.send_reaction(&peer_one, &frame).expect("request");
    let b = e.send_reaction(&peer_two, &frame).expect("request");
    let c = e.send_reaction(&peer_one, &frame).expect("request");
    match e.handle_event(Event::ConnectionClosed { peer: peer_one.clone() }) {
        Outcome::PendingDropped { request_ids } => {
            assert_eq!(request_ids, vec![a.request_id, c.request_id]);
        }
        other => panic!("unexpected outcome: {:?}", other),
    }
    // The request to the other peer is untouched.
    match e.handle_event(Event::OutboundFailure { request_id: b.request_id }) {
        Outcome::RequestFailed { known, .. } => assert!(known),
        other => panic!("unexpected outcome: {:?}", other),
    }
}

#[test]
fn inbound_request_is_answered_exactly_once() {
    let mut e = engine("a");
    let reaction = sample_reaction();
    match e.handle_event(Event::InboundRequest { channel: 5, reaction: reaction.clone() }) {
        Outcome::ReactionToHandle { channel, reaction: r } => {
            assert_eq!(channel, 5);
            assert_eq!(r, reaction);
        }
        other => panic!("unexpected outcome: {:?}", other),
    }
    let ack = make_ack(&reaction, vec![1], vec![2]);
    let resp = e.send_ack(5, &ack).expect("first answer");
    assert_eq!(resp.channel, 5);
    assert_eq!(mycelium::codec::decode_ack(&resp.data), Ok(ack.clone()));
    // A second answer on the same channel is a protocol violation.
    assert!(matches!(e.send_ack(5, &ack), Err(EngineError::TransportError)));
}

#[test]
fn byte_identical_payloads_deliver_once() {
    let mut e = engine("a");
    let payload = b"hello".to_vec();
    let first = e.handle_event(Event::GossipMessage {
        topic: "feed".to_owned(),
        payload: payload.clone(),
        from: "peer-b".to_owned(),
    });
    assert!(matches!(first, Outcome::Delivered { .. }));
    let second = e.handle_event(Event::GossipMessage {
        topic: "feed".to_owned(),
        payload: payload.clone(),
        from: "peer-c".to_owned(),
    });
    assert!(matches!(second, Outcome::DuplicateDropped));
    // One byte of difference makes a distinct message.
    let mut other = payload.clone();
    other[0] ^= 1;
    let third = e.handle_event(Event::GossipMessage {
        topic: "feed".to_owned(),
        payload: other,
        from: "peer-b".to_owned(),
    });
    assert!(matches!(third, Outcome::Delivered { .. }));
}

#[test]
fn delivery_scenario_is_attributed_to_the_publisher() {
    // Node A subscribes to "feed"; node B publishes `hello` to "feed"; A
    // observes exactly one delivery of `hello` attributed to B.
    let mut a = engine("peer-a");
    let b = engine("peer-b");
    assert_eq!(a.subscribe_topic("feed"), Ok(()));
    let post = mycelium::messages::SignedPost {
        content: b"hello".to_vec(),
        author_id: b"peer-b".to_vec(),
        signature: vec![7],
    };
    let publish = b.publish_post("feed", &post);
    let delivery = a.handle_event(Event::GossipMessage {
        topic: publish.topic.clone(),
        payload: publish.data.clone(),
        from: b.local_peer_id().clone(),
    });
    match delivery {
        Outcome::Delivered { topic, payload, from } => {
            assert_eq!(topic, "feed");
            assert_eq!(from, "peer-b");
            let got = mycelium::codec::decode_post(&payload).expect("a valid post frame");
            assert_eq!(got.content, b"hello".to_vec());
        }
        other => panic!("unexpected outcome: {:?}", other),
    }
    // Gossip may repeat the same message; it is not delivered again.
    let repeat = a.handle_event(Event::GossipMessage {
        topic: publish.topic,
        payload: publish.data,
        from: b.local_peer_id().clone(),
    });
    assert!(matches!(repeat, Outcome::DuplicateDropped));
}

#[test]
fn discovery_tracks_advertisements_and_expiry() {
    let mut e = engine("a");
    e.handle_event(Event::Discovered { peer: "p1".to_owned() });
    e.handle_event(Event::Discovered { peer: "p2".to_owned() });
    e.handle_event(Event::Discovered { peer: "p1".to_owned() });
    assert_eq!(e.discovered_nodes(), vec!["p1".to_owned(), "p2".to_owned()]);
    e.handle_event(Event::Expired { peer: "p1".to_owned() });
    assert_eq!(e.discovered_nodes(), vec!["p2".to_owned()]);
}

#[test]
fn connected_peers_is_a_snapshot() {
    let mut e = engine("a");
    e.handle_event(Event::ConnectionEstablished { peer: "p1".to_owned() });
    e.handle_event(Event::ConnectionEstablished { peer: "p1".to_owned() });
    let snapshot = e.connected_peers();
    e.handle_event(Event::ConnectionClosed { peer: "p1".to_owned() });
    // The copy does not follow the live state.
    assert_eq!(snapshot, vec!["p1".to_owned()]);
    assert_eq!(e.connected_peers(), Vec::<String>::new());
}

#[test]
fn peer_list_json_is_real_json() {
    let mut e = engine("a");
    assert_eq!(e.connected_peers_json(), "[]");
    assert_eq!(e.discovered_nodes_json(), "[]");
    e.handle_event(Event::ConnectionEstablished { peer: "p1".to_owned() });
    e.handle_event(Event::ConnectionEstablished { peer: "p2".to_owned() });
    assert_eq!(e.connected_peers_json(), "[\"p1\",\"p2\"]");
    let parsed: Vec<String> =
        serde_json::from_str(&e.connected_peers_json()).expect("well-formed JSON");
    assert_eq!(parsed, vec!["p1".to_owned(), "p2".to_owned()]);
}

#[test]
fn bad_frames_are_reported_and_survived() {
    let mut e = engine("a");
    let out = e.handle_event(Event::DecodeFailed { error: DecodeError::Malformed });
    assert!(matches!(out, Outcome::FrameRejected { error: DecodeError::Malformed }));
    // The engine still works afterwards.
    assert_eq!(e.subscribe_topic("feed"), Ok(()));
}

#[test]
fn commands_apply_in_order() {
    let mut e = engine("a");
    match e.apply_command(Command::Subscribe { topic: "feed".to_owned() }) {
        CommandOutcome::Status(r) => assert_eq!(r, Ok(())),
        other => panic!("unexpected outcome: {:?}", other),
    }
    match e.apply_command(Command::Subscribe { topic: "feed".to_owned() }) {
        CommandOutcome::Status(r) => assert_eq!(r, Err(EngineError::AlreadySubscribed)),
        other => panic!("unexpected outcome: {:?}", other),
    }
    match e.apply_command(Command::Start { addr: "/ip4/127.0.0.1/tcp/0".to_owned() }) {
        CommandOutcome::Status(r) => assert_eq!(r, Ok(())),
        other => panic!("unexpected outcome: {:?}", other),
    }
    match e.apply_command(Command::QueryLocalPeer) {
        CommandOutcome::LocalPeer(s) => assert_eq!(s, "a"),
        other => panic!("unexpected outcome: {:?}", other),
    }
    match e.apply_command(Command::QueryConnected) {
        CommandOutcome::Peers(v) => assert!(v.is_empty()),
        other => panic!("unexpected outcome: {:?}", other),
    }
    match e.apply_command(Command::Stop) {
        CommandOutcome::Stopped(was_running) => assert!(was_running),
        other => panic!("unexpected outcome: {:?}", other),
    }
}

#[test]
fn reaction_commands_round_through_the_queue() {
    let mut e = engine("a");
    let peer = valid_peer();
    let frame = encode_reaction(&sample_reaction());
    let req = match e.apply_command(Command::SendReaction { peer, frame }) {
        CommandOutcome::RequestOut(Ok(req)) => req,
        other => panic!("unexpected outcome: {:?}", other),
    };
    assert_eq!(req.request_id, 0);
    // An inbound request, then its answer, through the same queue.
    e.handle_event(Event::InboundRequest { channel: 1, reaction: sample_reaction() });
    match e.apply_command(Command::SendAck { channel: 1, ack: sample_ack() }) {
        CommandOutcome::ResponseOut(Ok(resp)) => assert_eq!(resp.channel, 1),
        other => panic!("unexpected outcome: {:?}", other),
    }
    match e.apply_command(Command::SendAck { channel: 1, ack: sample_ack() }) {
        CommandOutcome::ResponseOut(Err(e)) => assert_eq!(e, EngineError::TransportError),
        other => panic!("unexpected outcome: {:?}", other),
    }
    match e.apply_command(Command::Connect { addr: "nonsense".to_owned() }) {
        CommandOutcome::DialOut(Err(e)) => assert_eq!(e, EngineError::AddressError),
        other => panic!("unexpected outcome: {:?}", other),
    }
}

#[test]
fn identity_is_fixed_at_construction() {
    let e = engine("peer-a");
    assert_eq!(e.local_peer_id(), "peer-a");
    assert_eq!(e.requests_issued(), 0);
}

#[test]
fn config_holds_its_values() {
    let c = mycelium::config::Config::new(50051, 4001, "peer.key".to_owned());
    assert_eq!(c.grpc_port, 50051);
    assert_eq!(c.p2p_port, 4001);
    assert_eq!(c.peer_key_path, "peer.key");
}

#[test]
fn stop_cancels_in_flight_requests() {
    let mut e = engine("a");
    assert_eq!(e.start("/ip4/127.0.0.1/tcp/0"), Ok(()));
    let peer = valid_peer();
    let frame = encode_reaction(&sample_reaction());
    let req = e.send_reaction(&peer, &frame).expect("request");
    assert!(e.stop());
    // The request was resolved by cancellation, not leaked.
    match e.handle_event(Event::OutboundFailure { request_id: req.request_id }) {
        Outcome::RequestFailed { known, .. } => assert!(!known),
        other => panic!("unexpected outcome: {:?}", other),
    }
}
