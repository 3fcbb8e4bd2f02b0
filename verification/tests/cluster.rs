//! Nodes and references to the actors on them, connected in memory.

use std::collections::VecDeque;

use sandcastle::cluster::{
    client_handshake, ct_eq, is_expected_disconnect, server_handshake, Accepted, ClusterError,
    Codec, CodecError, Dispatch, Node, NodeConfig, ReadFault, ReadStep, Reader, RemoteActorRef,
    AUTH_TOKEN_LEN, MAX_PAYLOAD,
};
use sandcastle::json::{json_to_string, parse, Json};
use sandcastle::vshell::exec::Span;

#[derive(Debug, Clone, PartialEq)]
struct TestMsg {
    kind: String,
    n: i64,
}

impl Codec for TestMsg {
    fn encode(&self) -> Vec<u8> {
        let kind = json_to_string(&Json::Str(self.kind.clone()));
        format!("{{\"kind\":{kind},\"n\":{}}}", self.n).into_bytes()
    }

    fn decode(bytes: &[u8]) -> Result<Self, CodecError> {
        let v = parse(bytes).map_err(|e| CodecError(e.message()))?;
        let kind = v.get("kind").and_then(|x| x.as_str());
        let kind = kind.ok_or(CodecError("missing kind".into()))?.to_string();
        match v.get("n") {
            Some(Json::Num(s)) => {
                let n = s.parse().map_err(|_| CodecError(format!("bad number: {s}")))?;
                Ok(TestMsg { kind, n })
            }
            _ => Err(CodecError("missing n".into())),
        }
    }
}

fn msg(kind: &str, n: i64) -> TestMsg {
    TestMsg { kind: kind.into(), n }
}

/// One connection to a node.
struct Wire {
    reader: Option<Reader>,
    bytes: VecDeque<u8>,
}

/// A node with its connections; each slot keeps the messages that it was given.
struct Net {
    node: Node,
    wires: Vec<Wire>,
    boxes: Vec<Vec<TestMsg>>,
    bad: usize,
}

impl Net {
    fn over(node: Node) -> Net {
        Net { node, wires: vec![], boxes: vec![], bad: 0 }
    }

    fn new() -> Net {
        Net::over(Node::start())
    }

    fn guarded(token: [u8; AUTH_TOKEN_LEN]) -> Net {
        Net::over(Node::start_with_config(NodeConfig {
            auth_token: Some(token),
            idle_timeout: Span { secs: 5, nanos: 0 },
        }))
    }

    fn register(&mut self, id: &str) -> usize {
        self.boxes.push(vec![]);
        self.node.register(id, self.boxes.len() - 1);
        self.boxes.len() - 1
    }

    fn connect(&mut self) -> usize {
        match self.node.accept(true) {
            Accepted::Serve(reader) => {
                self.wires.push(Wire { reader: Some(reader), bytes: VecDeque::new() });
                self.wires.len() - 1
            }
            other => panic!("unexpected: {other:?}"),
        }
    }

    fn hang_up(&mut self, wire: usize) {
        if self.wires[wire].reader.take().is_some() {
            self.node.reader_done();
        }
    }

    fn deliver(&mut self, payload: &[u8]) {
        match self.node.dispatch_frame(payload) {
            Dispatch::Deliver { slot, message } => match TestMsg::decode(&message) {
                Ok(m) => self.boxes[slot].push(m),
                Err(_) => self.bad += 1,
            },
            Dispatch::Malformed | Dispatch::BadId | Dispatch::Unknown(_) => self.bad += 1,
        }
    }

    /// Writes to a connection; fails once the node has closed it.
    fn write(&mut self, wire: usize, bytes: &[u8]) -> Result<(), String> {
        if self.wires[wire].reader.is_none() {
            return Err("Broken pipe (os error 32)".to_string());
        }
        self.wires[wire].bytes.extend(bytes);
        while let Some(mut reader) = self.wires[wire].reader.take() {
            if self.wires[wire].bytes.len() < reader.want() {
                self.wires[wire].reader = Some(reader);
                break;
            }
            let chunk: Vec<u8> = self.wires[wire].bytes.drain(..reader.want()).collect();
            match reader.take(&chunk) {
                ReadStep::More => self.wires[wire].reader = Some(reader),
                ReadStep::Frame(payload) => {
                    self.wires[wire].reader = Some(reader);
                    self.deliver(&payload);
                }
                ReadStep::Rejected | ReadStep::Oversize(_) => self.node.reader_done(),
            }
        }
        Ok(())
    }
}

/// A reference together with its connection.
struct Remote {
    to: RemoteActorRef,
    wire: usize,
}

impl Remote {
    fn new(id: &str) -> Remote {
        Remote { to: RemoteActorRef::new("127.0.0.1:1", id), wire: 0 }
    }

    fn with_auth(id: &str, token: [u8; AUTH_TOKEN_LEN]) -> Remote {
        Remote { to: RemoteActorRef::with_auth("127.0.0.1:1", id, token), wire: 0 }
    }

    fn send<M: Codec>(&mut self, net: &mut Net, m: M) -> Result<(), ClusterError> {
        let plan = self.to.send(m)?;
        let mut outcome = Ok(());
        if plan.dial {
            self.wire = net.connect();
            if let Some(opening) = &plan.opening {
                outcome = net.write(self.wire, opening);
            }
        }
        let outcome = outcome.and_then(|_| net.write(self.wire, &plan.frame));
        self.to.sent(outcome)
    }
}

#[test]
fn local_to_remote_roundtrip() {
    let mut net = Net::new();
    let slot = net.register("greeter");
    Remote::new("greeter").send(&mut net, msg("hi", 7)).unwrap();
    assert_eq!(net.boxes[slot][0], msg("hi", 7));
}

#[test]
fn routes_by_actor_id() {
    let mut net = Net::new();
    let a = net.register("alpha");
    let b = net.register("beta");
    let mut to_a = Remote::new("alpha");
    let mut to_b = Remote::new("beta");
    to_a.send(&mut net, msg("A", 1)).unwrap();
    to_b.send(&mut net, msg("B", 2)).unwrap();
    to_a.send(&mut net, msg("A", 3)).unwrap();
    assert_eq!(net.boxes[a].iter().map(|m| m.n).collect::<Vec<_>>(), vec![1, 3]);
    assert_eq!(net.boxes[b].len(), 1);
    assert_eq!(net.boxes[b][0].n, 2);
}

#[test]
fn connection_is_reused() {
    let mut net = Net::new();
    let slot = net.register("sink");
    let mut remote = Remote::new("sink");
    for i in 0..25 {
        remote.send(&mut net, msg("tick", i)).unwrap();
    }
    assert_eq!(net.boxes[slot].len(), 25);
    assert_eq!(net.node.reader_count(), 1, "expected single reused connection");
}

#[test]
fn unknown_actor_is_ignored_not_errored() {
    let mut net = Net::new();
    let slot = net.register("known");
    Remote::new("nope").send(&mut net, msg("ignored", 0)).unwrap();
    Remote::new("known").send(&mut net, msg("ok", 9)).unwrap();
    assert_eq!(net.boxes[slot].len(), 1);
    assert_eq!(net.boxes[slot][0].n, 9);
}

#[test]
fn concurrent_senders_all_arrive() {
    let mut net = Net::new();
    let slot = net.register("hub");
    let mut senders: Vec<Remote> = (0..8).map(|_| Remote::new("hub")).collect();
    for i in 0..50 {
        for (w, remote) in senders.iter_mut().enumerate() {
            remote.send(&mut net, msg(&format!("w{w}"), i)).unwrap();
        }
    }
    assert_eq!(net.boxes[slot].len(), 400);
}

struct AlwaysFails;

impl Codec for AlwaysFails {
    fn encode(&self) -> Vec<u8> {
        vec![0xff]
    }

    fn decode(_: &[u8]) -> Result<Self, CodecError> {
        Err(CodecError("nope".into()))
    }
}

#[test]
fn codec_error_logs_and_continues() {
    let mut net = Net::new();
    let good = net.register("good");
    net.register("bad");
    Remote::new("bad").send(&mut net, AlwaysFails).unwrap();
    assert_eq!(net.bad, 1);
    Remote::new("good").send(&mut net, msg("after", 1)).unwrap();
    assert_eq!(net.boxes[good][0].n, 1);
    assert_eq!(ClusterError::from(CodecError("nope".into())).message(), "codec error: nope");
}

struct Big(Vec<u8>);

impl Codec for Big {
    fn encode(&self) -> Vec<u8> {
        self.0.clone()
    }

    fn decode(b: &[u8]) -> Result<Self, CodecError> {
        Ok(Big(b.to_vec()))
    }
}

#[test]
fn oversize_payload_is_rejected_on_send() {
    let mut net = Net::new();
    net.register("drain");
    let mut remote = Remote::new("drain");
    match remote.send(&mut net, Big(vec![0u8; MAX_PAYLOAD + 1])) {
        Err(ClusterError::Oversize(_)) => {}
        other => panic!("expected Oversize, got {other:?}"),
    }
}

#[test]
fn shutdown_joins_cleanly() {
    let mut node = Node::start();
    node.shutdown();
    assert!(matches!(node.accept(true), Accepted::Stop));
}

#[test]
fn shutdown_with_open_connection() {
    let mut net = Net::new();
    let slot = net.register("x");
    Remote::new("x").send(&mut net, msg("one", 1)).unwrap();
    assert_eq!(net.boxes[slot].len(), 1);
    net.node.shutdown();
    assert!(matches!(net.node.accept(false), Accepted::Stop));
}

#[test]
fn write_failure_recovers_on_next_send() {
    let mut net = Net::new();
    let slot = net.register("y");
    let mut remote = Remote::new("y");
    remote.send(&mut net, msg("first", 1)).unwrap();
    net.hang_up(remote.wire);
    match remote.send(&mut net, msg("shed", 2)) {
        Err(ClusterError::Io(_)) => {}
        other => panic!("unexpected: {other:?}"),
    }
    remote.send(&mut net, msg("retry", 3)).unwrap();
    assert!(net.boxes[slot].iter().any(|m| m.n == 3));
}

#[test]
fn two_nodes_bidirectional() {
    let mut a = Net::new();
    let mut b = Net::new();
    let on_a = a.register("on_a");
    let on_b = b.register("on_b");
    Remote::new("on_b").send(&mut b, msg("->b", 1)).unwrap();
    Remote::new("on_a").send(&mut a, msg("->a", 2)).unwrap();
    assert_eq!(a.boxes[on_a][0].n, 2);
    assert_eq!(b.boxes[on_b][0].n, 1);
}

#[test]
fn malformed_frame_no_nul_is_dropped() {
    let mut net = Net::new();
    let slot = net.register("z");
    let wire = net.connect();
    let bogus = b"not-null-terminated-anywhere";
    net.write(wire, &(bogus.len() as u32).to_be_bytes()).unwrap();
    net.write(wire, bogus).unwrap();
    assert!(matches!(net.node.dispatch_frame(bogus), Dispatch::Malformed));

    let encoded = msg("ok", 42).encode();
    let payload_len = ("z".len() + 1 + encoded.len()) as u32;
    net.write(wire, &payload_len.to_be_bytes()).unwrap();
    net.write(wire, b"z").unwrap();
    net.write(wire, &[0]).unwrap();
    net.write(wire, &encoded).unwrap();
    assert!(net.boxes[slot].iter().any(|m| m.n == 42));
}

#[test]
fn connection_without_token_rejected_when_auth_required() {
    let mut net = Net::guarded([0x42u8; AUTH_TOKEN_LEN]);
    let slot = net.register("vault");

    let mut anon = Remote::new("vault");
    let failed = (0..40).any(|_| anon.send(&mut net, msg("knock", 1)).is_err());
    assert!(failed, "unauthenticated send must eventually fail");

    let mut wrong = Remote::with_auth("vault", [0xAAu8; AUTH_TOKEN_LEN]);
    let failed = (0..40).any(|_| wrong.send(&mut net, msg("knock", 2)).is_err());
    assert!(failed, "wrong-token send must eventually fail");

    assert!(net.boxes[slot].is_empty());
    assert_eq!(net.node.reader_count(), 0);
}

#[test]
fn connection_with_correct_token_succeeds() {
    let token = [0x77u8; AUTH_TOKEN_LEN];
    let mut net = Net::guarded(token);
    let slot = net.register("door");
    Remote::with_auth("door", token).send(&mut net, msg("open", 12)).unwrap();
    assert_eq!(net.boxes[slot][0].n, 12);
}

#[test]
fn idle_peer_disconnected_within_timeout() {
    let mut net = Net::new();
    let wire = net.connect();
    assert_eq!(net.node.reader_count(), 1);
    let mut reader = net.wires[wire].reader.take().unwrap();
    assert_eq!(reader.fail(ReadFault::TimedOut), None);
    net.node.reader_done();
    assert_eq!(net.node.reader_count(), 0);
}

#[test]
fn reader_count_returns_to_zero_after_peer_disconnects() {
    let mut net = Net::new();
    for _ in 0..10 {
        let wire = net.connect();
        assert_eq!(net.node.reader_count(), 1);
        net.hang_up(wire);
        assert_eq!(net.node.reader_count(), 0);
    }
}

#[test]
fn handshakes() {
    let token = [7u8; AUTH_TOKEN_LEN];
    let opening = client_handshake(&token);
    assert_eq!(opening.len(), 4 + AUTH_TOKEN_LEN);
    assert_eq!(&opening[..4], b"AUTH");
    assert!(server_handshake(&opening, &token));
    assert!(!server_handshake(&opening, &[8u8; AUTH_TOKEN_LEN]));
    assert!(ct_eq(b"ab", b"ab"));
    assert!(!ct_eq(b"ab", b"ac"));
    assert!(!ct_eq(b"ab", b"abc"));
}

#[test]
fn frames_hold_length_id_and_message() {
    let plan = RemoteActorRef::new("h:1", "id").plan(b"xyz").unwrap();
    assert!(plan.dial);
    assert!(plan.opening.is_none());
    assert_eq!(plan.frame, b"\0\0\0\x06id\0xyz");
}

#[test]
fn frames_with_bad_ids_are_told() {
    let node = Node::start();
    assert!(matches!(node.dispatch_frame(b"\xff\0m"), Dispatch::BadId));
    assert!(matches!(node.dispatch_frame(b"who\0m"), Dispatch::Unknown(id) if id == "who"));
}

#[test]
fn oversize_frames_are_not_read() {
    let mut reader = Reader::new(None);
    assert_eq!(reader.want(), 4);
    match reader.take(&[0xff; 4]) {
        ReadStep::Oversize(n) => assert_eq!(n, 0xffff_ffff),
        other => panic!("unexpected: {other:?}"),
    }
}

#[test]
fn only_odd_disconnects_are_told() {
    assert!(is_expected_disconnect(ReadFault::UnexpectedEof));
    assert!(!is_expected_disconnect(ReadFault::Other));
    assert_eq!(Reader::new(None).fail(ReadFault::Other), Some(ReadFault::Other));
}

#[test]
fn cluster_error_texts() {
    assert_eq!(ClusterError::NotConnected.message(), "not connected");
    assert_eq!(ClusterError::AuthFailed.message(), "auth handshake failed");
    assert_eq!(ClusterError::UnknownActor("a".into()).message(), "unknown actor id: a");
}
