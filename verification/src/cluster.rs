//! Messages between nodes.
//!
//! A node holds a registry of local actors by id. A peer sends frames: a big-endian length
//! of four bytes, then the actor's id, a NUL, and the encoded message. A frame holds at
//! most 4 MiB. Nothing is answered.
//!
//! Where a node has a token, a connection opens with `AUTH` and the token; anything else
//! closes it without an answer. A node without a token takes frames from everyone who
//! reaches it.
//!
//! Sockets and threads are the caller's part: it reads as many bytes as a `Reader` wants
//! and hands them over, and does what a `SendPlan` says.

use vstd::prelude::*;
use vstd::std_specs::convert::FromSpecImpl;
use vstd::utf8::*;

use crate::table::Table;
use crate::text::{bytes_copy, push_bytes, push_dec, push_text};
use crate::vshell::exec::Span;
use crate::wire::scan::{lemma_seek, seek, seek_byte};

verus! {

/// Largest payload of a frame: 4 MiB.
pub const MAX_PAYLOAD: usize = 0x40_0000;

/// Length of a token.
pub const AUTH_TOKEN_LEN: usize = 32;

/// Seconds after which a silent peer is dropped, unless a node is told otherwise.
pub const DEFAULT_IDLE_TIMEOUT: u64 = 60;

/// What can be sent to an actor on another node.
pub trait Codec: Sized {
    fn encode(&self) -> Vec<u8>;

    fn decode(bytes: &[u8]) -> Result<Self, CodecError>;
}

#[derive(Debug)]
pub struct CodecError(pub String);

impl CodecError {
    /// The text that describes the error.
    pub fn message(&self) -> (res: String)
        ensures
            res@ == "codec error: "@ + self.0@,
    {
        let mut res = "codec error: ".to_owned();
        res.push_str(self.0.as_str());
        res
    }
}

#[derive(Debug)]
pub enum ClusterError {
    /// The text of an operating-system error.
    Io(String),
    Codec(CodecError),
    UnknownActor(String),
    NotConnected,
    /// A payload of more than `MAX_PAYLOAD` bytes.
    Oversize(usize),
    /// The peer refused the handshake.
    AuthFailed,
}

impl ClusterError {
    /// The text that describes the error.
    pub fn message(&self) -> (res: String)
        ensures
            res@ == (match *self {
                ClusterError::Io(m) => "io: "@ + m@,
                ClusterError::Codec(e) => "codec error: "@ + e.0@,
                ClusterError::UnknownActor(id) => "unknown actor id: "@ + id@,
                ClusterError::NotConnected => "not connected"@,
                ClusterError::Oversize(n) => "oversize payload: "@ + crate::text::dec(n as nat)
                    + " bytes"@,
                ClusterError::AuthFailed => "auth handshake failed"@,
            }),
    {
        match self {
            ClusterError::Io(m) => {
                let mut res = "io: ".to_owned();
                res.push_str(m.as_str());
                res
            },
            ClusterError::Codec(e) => e.message(),
            ClusterError::UnknownActor(id) => {
                let mut res = "unknown actor id: ".to_owned();
                res.push_str(id.as_str());
                res
            },
            ClusterError::NotConnected => "not connected".to_owned(),
            ClusterError::Oversize(n) => {
                let mut res = "oversize payload: ".to_owned();
                push_dec(&mut res, *n as u128);
                res.push_str(" bytes");
                res
            },
            ClusterError::AuthFailed => "auth handshake failed".to_owned(),
        }
    }
}

impl From<CodecError> for ClusterError {
    fn from(e: CodecError) -> (res: Self) {
        ClusterError::Codec(e)
    }
}

impl FromSpecImpl<CodecError> for ClusterError {
    open spec fn obeys_from_spec() -> bool {
        true
    }

    open spec fn from_spec(e: CodecError) -> Self {
        ClusterError::Codec(e)
    }
}

/// Compares two byte strings without stopping at the first difference, so that the time it
/// takes tells nothing of where they differ.
pub fn ct_eq(a: &[u8], b: &[u8]) -> (res: bool)
    ensures
        res == (a@ == b@),
{
    if a.len() != b.len() {
        return false;
    }
    let mut diff: u8 = 0;
    let mut i: usize = 0;
    while i < a.len()
        invariant
            i <= a@.len() == b@.len(),
            (diff == 0) == (a@.take(i as int) =~= b@.take(i as int)),
        decreases a.len() - i,
    {
        let x: u8 = a[i];
        let y: u8 = b[i];
        let ghost d0 = diff;
        diff = diff | (x ^ y);
        proof {
            assert((d0 | (x ^ y)) == 0 <==> (d0 == 0 && x == y)) by (bit_vector);
            let ta = a@.take(i + 1);
            let tb = b@.take(i + 1);
            assert(ta.take(i as int) =~= a@.take(i as int));
            assert(tb.take(i as int) =~= b@.take(i as int));
            assert(ta =~= a@.take(i as int).push(x));
            assert(tb =~= b@.take(i as int).push(y));
            if ta =~= tb {
                assert(ta[i as int] == tb[i as int]);
                assert(a@.take(i as int) =~= b@.take(i as int));
            }
        }
        i += 1;
    }
    proof {
        assert(a@.take(a@.len() as int) =~= a@);
        assert(b@.take(b@.len() as int) =~= b@);
    }
    diff == 0
}

// ---------------------------------------------------------------------------------
// Frames
// ---------------------------------------------------------------------------------
/// A number in four bytes, the highest first.
pub open spec fn be4(n: nat) -> Seq<u8> {
    seq![
        (n / 0x100_0000 % 0x100) as u8,
        (n / 0x1_0000 % 0x100) as u8,
        (n / 0x100 % 0x100) as u8,
        (n % 0x100) as u8,
    ]
}

/// The number that four bytes stand for.
pub open spec fn be4_value(b: Seq<u8>) -> nat {
    (b[0] * 0x100_0000 + b[1] * 0x1_0000 + b[2] * 0x100 + b[3]) as nat
}

/// What a frame holds.
pub open spec fn payload(id: Seq<char>, encoded: Seq<u8>) -> Seq<u8> {
    encode_utf8(id) + seq![0u8] + encoded
}

/// A frame.
pub open spec fn framed(p: Seq<u8>) -> Seq<u8> {
    be4(p.len()) + p
}

fn push_be4(out: &mut Vec<u8>, n: u32)
    ensures
        final(out)@ == old(out)@ + be4(n as nat),
{
    out.push((n / 0x100_0000) as u8);
    out.push((n / 0x1_0000 % 0x100) as u8);
    out.push((n / 0x100 % 0x100) as u8);
    out.push((n % 0x100) as u8);
    proof {
        assert(out@ =~= old(out)@ + be4(n as nat));
    }
}

fn read_be4(b: &[u8]) -> (n: u32)
    requires
        b@.len() == 4,
    ensures
        n == be4_value(b@),
{
    b[0] as u32 * 0x100_0000 + b[1] as u32 * 0x1_0000 + b[2] as u32 * 0x100 + b[3] as u32
}

/// The opening of a connection to a node with a token.
pub open spec fn greeting(token: Seq<u8>) -> Seq<u8> {
    seq![0x41u8, 0x55u8, 0x54u8, 0x48u8] + token
}

/// The opening of a connection to a node with a token.
pub fn client_handshake(token: &[u8; AUTH_TOKEN_LEN]) -> (res: Vec<u8>)
    ensures
        res@ == greeting(token@),
{
    let mut res: Vec<u8> = Vec::new();
    res.push(0x41);
    res.push(0x55);
    res.push(0x54);
    res.push(0x48);
    push_bytes(&mut res, token.as_slice());
    proof {
        assert(res@ =~= greeting(token@));
    }
    res
}

/// Whether the opening of a connection is the right one. Both halves are compared in any
/// case, so that the time it takes does not tell which of them was wrong.
pub fn server_handshake(opening: &[u8], expected: &[u8; AUTH_TOKEN_LEN]) -> (res: bool)
    requires
        opening@.len() == 4 + AUTH_TOKEN_LEN,
    ensures
        res == (opening@ == greeting(expected@)),
{
    let mut magic: Vec<u8> = Vec::new();
    magic.push(0x41);
    magic.push(0x55);
    magic.push(0x54);
    magic.push(0x48);
    let head = vstd::slice::slice_subrange(opening, 0, 4);
    let tail = vstd::slice::slice_subrange(opening, 4, opening.len());
    let magic_ok = ct_eq(head, magic.as_slice());
    let token_ok = ct_eq(tail, expected.as_slice());
    proof {
        assert(magic@ =~= seq![0x41u8, 0x55u8, 0x54u8, 0x48u8]);
        assert(opening@ =~= head@ + tail@);
        let g = greeting(expected@);
        assert(g.subrange(0, 4) =~= magic@);
        assert(g.subrange(4, g.len() as int) =~= expected@);
    }
    magic_ok && token_ok
}

// ---------------------------------------------------------------------------------
// Node
// ---------------------------------------------------------------------------------
/// Settings of a node.
#[derive(Debug, Clone, Copy)]
pub struct NodeConfig {
    /// What a peer has to present; nothing if there is none.
    pub auth_token: Option<[u8; AUTH_TOKEN_LEN]>,
    /// How long a peer may be silent.
    pub idle_timeout: Span,
}

impl Default for NodeConfig {
    fn default() -> (res: Self)
        ensures
            res.auth_token is None,
            res.idle_timeout == (Span { secs: DEFAULT_IDLE_TIMEOUT, nanos: 0 }),
    {
        NodeConfig {
            auth_token: None,
            idle_timeout: Span { secs: DEFAULT_IDLE_TIMEOUT, nanos: 0 },
        }
    }
}

/// A node. Local actors are known by the slots that the caller keeps them in.
#[derive(Debug)]
pub struct Node {
    pub config: NodeConfig,
    pub running: bool,
    /// Number of connections that are being read.
    pub readers: usize,
    pub registry: Table<usize>,
}

/// What becomes of a frame.
#[derive(Debug)]
pub enum Dispatch {
    /// It goes to the actor in this slot.
    Deliver { slot: usize, message: Vec<u8> },
    /// It has no NUL behind the actor's id.
    Malformed,
    /// The actor's id is not UTF-8.
    BadId,
    /// No actor has this id.
    Unknown(String),
}

/// Mathematical form of a `Dispatch`.
pub enum Fate {
    Deliver { slot: usize, message: Seq<u8> },
    Malformed,
    BadId,
    Unknown(Seq<char>),
}

impl View for Dispatch {
    type V = Fate;

    open spec fn view(&self) -> Fate {
        match *self {
            Dispatch::Deliver { slot, message } => Fate::Deliver { slot, message: message@ },
            Dispatch::Malformed => Fate::Malformed,
            Dispatch::BadId => Fate::BadId,
            Dispatch::Unknown(id) => Fate::Unknown(id@),
        }
    }
}

/// What becomes of a payload.
pub open spec fn fate(p: Seq<u8>, registry: Map<Seq<char>, usize>) -> Fate {
    let z = seek(p, 0, 0);
    if z >= p.len() {
        Fate::Malformed
    } else if !valid_utf8(p.take(z)) {
        Fate::BadId
    } else {
        let id = decode_utf8(p.take(z));
        if registry.dom().contains(id) {
            Fate::Deliver { slot: registry[id], message: p.skip(z + 1) }
        } else {
            Fate::Unknown(id)
        }
    }
}

/// What to do with an attempt to connect.
#[derive(Debug)]
pub enum Accepted {
    /// The node no longer runs: close the connection and listen no more.
    Stop,
    /// Read from the connection.
    Serve(Reader),
    /// The attempt failed; say so and go on listening.
    Complain,
}

impl Node {
    /// A node without a token that drops peers after 60 silent seconds.
    pub fn start() -> (res: Self)
        ensures
            res.config.auth_token is None,
            res.config.idle_timeout == (Span { secs: 60, nanos: 0 }),
            res.running,
            res.readers == 0,
            res.registry@ == Map::<Seq<char>, usize>::empty(),
    {
        Self::start_with_config(NodeConfig::default())
    }

    pub fn start_with_config(config: NodeConfig) -> (res: Self)
        ensures
            res.config == config,
            res.running,
            res.readers == 0,
            res.registry@ == Map::<Seq<char>, usize>::empty(),
    {
        Node { config, running: true, readers: 0, registry: Table::new() }
    }

    /// Registers the actor in a slot under an id, in place of one that had it before.
    pub fn register(&mut self, id: &str, slot: usize)
        ensures
            final(self).config == old(self).config,
            final(self).running == old(self).running,
            final(self).readers == old(self).readers,
            final(self).registry@ == old(self).registry@.insert(id@, slot),
    {
        self.registry.set(id.to_owned(), slot);
    }

    /// Number of connections that are being read.
    pub fn reader_count(&self) -> (n: usize)
        ensures
            n == self.readers,
    {
        self.readers
    }

    /// Stops listening.
    pub fn shutdown(&mut self)
        ensures
            final(self).config == old(self).config,
            !final(self).running,
            final(self).readers == old(self).readers,
            final(self).registry == old(self).registry,
    {
        self.running = false;
    }

    /// What to do with an attempt to connect, which may have failed.
    pub fn accept(&mut self, connected: bool) -> (res: Accepted)
        ensures
            final(self).config == old(self).config,
            final(self).running == old(self).running,
            final(self).registry == old(self).registry,
            if !old(self).running {
                res is Stop && final(self).readers == old(self).readers
            } else if connected {
                &&& res matches Accepted::Serve(reader) && reader.token
                    == old(self).config.auth_token && reader.phase == opening_phase(
                    old(self).config.auth_token,
                )
                &&& final(self).readers == old(self).readers.wrapping_add(1)
            } else {
                res is Complain && final(self).readers == old(self).readers
            },
    {
        if !self.running {
            return Accepted::Stop;
        }
        if connected {
            self.readers = self.readers.wrapping_add(1);
            Accepted::Serve(Reader::new(self.config.auth_token))
        } else {
            Accepted::Complain
        }
    }

    /// A connection is no longer being read.
    pub fn reader_done(&mut self)
        ensures
            final(self).config == old(self).config,
            final(self).running == old(self).running,
            final(self).registry == old(self).registry,
            final(self).readers == old(self).readers.wrapping_sub(1),
    {
        self.readers = self.readers.wrapping_sub(1);
    }

    /// What becomes of a frame.
    pub fn dispatch_frame(&self, p: &[u8]) -> (res: Dispatch)
        ensures
            res@ == fate(p@, self.registry@),
    {
        let z = seek_byte(p, 0, 0);
        if z >= p.len() {
            return Dispatch::Malformed;
        }
        let head = vstd::slice::slice_subrange(p, 0, z);
        proof {
            assert(head@ =~= p@.take(z as int));
        }
        match core::str::from_utf8(head) {
            Err(_) => Dispatch::BadId,
            Ok(id) => {
                proof {
                    encode_utf8_decode_utf8(id@);
                }
                match self.registry.get(id) {
                    Some(slot) => {
                        let message = bytes_copy(
                            vstd::slice::slice_subrange(p, z + 1, p.len()),
                        );
                        proof {
                            assert(message@ =~= p@.skip(z + 1));
                        }
                        Dispatch::Deliver { slot: *slot, message }
                    },
                    None => Dispatch::Unknown(id.to_owned()),
                }
            },
        }
    }
}

// ---------------------------------------------------------------------------------
// Reading
// ---------------------------------------------------------------------------------
/// What a connection is at.
#[derive(Debug, Clone, Copy, PartialEq, Eq, Structural)]
pub enum Phase {
    /// It has to present the token.
    Handshake,
    /// A frame's length comes next.
    Length,
    /// A frame's payload of so many bytes comes next.
    Payload(usize),
    Closed,
}

/// How reading fails.
#[derive(Debug, Clone, Copy, PartialEq, Eq, Structural)]
pub enum ReadFault {
    UnexpectedEof,
    ConnectionReset,
    ConnectionAborted,
    BrokenPipe,
    WouldBlock,
    TimedOut,
    Other,
}

/// What a piece of a connection leads to.
#[derive(Debug)]
pub enum ReadStep {
    /// More has to come.
    More,
    /// A whole payload.
    Frame(Vec<u8>),
    /// The opening was wrong; the connection is closed without an answer.
    Rejected,
    /// A frame of this length is too large; the connection is closed.
    Oversize(usize),
}

/// Mathematical form of a `ReadStep`.
pub enum Outcome {
    More,
    Frame(Seq<u8>),
    Rejected,
    Oversize(int),
}

impl View for ReadStep {
    type V = Outcome;

    open spec fn view(&self) -> Outcome {
        match *self {
            ReadStep::More => Outcome::More,
            ReadStep::Frame(p) => Outcome::Frame(p@),
            ReadStep::Rejected => Outcome::Rejected,
            ReadStep::Oversize(n) => Outcome::Oversize(n as int),
        }
    }
}

/// A connection that is being read.
#[derive(Debug)]
pub struct Reader {
    pub token: Option<[u8; AUTH_TOKEN_LEN]>,
    pub phase: Phase,
}

/// What a connection begins with.
pub open spec fn opening_phase(token: Option<[u8; AUTH_TOKEN_LEN]>) -> Phase {
    match token {
        Some(_) => Phase::Handshake,
        None => Phase::Length,
    }
}

/// Number of bytes to read next.
pub open spec fn wanted(phase: Phase) -> int {
    match phase {
        Phase::Handshake => 4 + AUTH_TOKEN_LEN,
        Phase::Length => 4,
        Phase::Payload(n) => n as int,
        Phase::Closed => 0,
    }
}

/// What the next bytes lead to.
pub open spec fn advance(
    token: Option<[u8; AUTH_TOKEN_LEN]>,
    phase: Phase,
    b: Seq<u8>,
) -> (Phase, Outcome) {
    match phase {
        Phase::Handshake => if token matches Some(t) && b == greeting(t@) {
            (Phase::Length, Outcome::More)
        } else {
            (Phase::Closed, Outcome::Rejected)
        },
        Phase::Length => if be4_value(b) > MAX_PAYLOAD {
            (Phase::Closed, Outcome::Oversize(be4_value(b) as int))
        } else {
            (Phase::Payload(be4_value(b) as usize), Outcome::More)
        },
        Phase::Payload(_) => (Phase::Length, Outcome::Frame(b)),
        Phase::Closed => (Phase::Closed, Outcome::More),
    }
}

/// Whether a fault is the ordinary end of a connection.
pub fn is_expected_disconnect(fault: ReadFault) -> (res: bool)
    ensures
        res == (fault != ReadFault::Other),
{
    match fault {
        ReadFault::Other => false,
        _ => true,
    }
}

impl Reader {
    pub fn new(token: Option<[u8; AUTH_TOKEN_LEN]>) -> (res: Self)
        ensures
            res.token == token,
            res.phase == opening_phase(token),
    {
        let phase = match token {
            Some(_) => Phase::Handshake,
            None => Phase::Length,
        };
        Reader { token, phase }
    }

    /// Number of bytes to read next.
    pub fn want(&self) -> (n: usize)
        ensures
            n == wanted(self.phase),
    {
        match self.phase {
            Phase::Handshake => 4 + AUTH_TOKEN_LEN,
            Phase::Length => 4,
            Phase::Payload(n) => n,
            Phase::Closed => 0,
        }
    }

    /// Takes in the bytes that were wanted.
    pub fn take(&mut self, b: &[u8]) -> (res: ReadStep)
        requires
            b@.len() == wanted(old(self).phase),
        ensures
            final(self).token == old(self).token,
            (final(self).phase, res@) == advance(old(self).token, old(self).phase, b@),
    {
        match self.phase {
            Phase::Handshake => {
                let ok = match &self.token {
                    Some(t) => server_handshake(b, t),
                    None => false,
                };
                if ok {
                    self.phase = Phase::Length;
                    ReadStep::More
                } else {
                    self.phase = Phase::Closed;
                    ReadStep::Rejected
                }
            },
            Phase::Length => {
                let n = read_be4(b) as usize;
                if n > MAX_PAYLOAD {
                    self.phase = Phase::Closed;
                    ReadStep::Oversize(n)
                } else {
                    self.phase = Phase::Payload(n);
                    ReadStep::More
                }
            },
            Phase::Payload(_) => {
                self.phase = Phase::Length;
                ReadStep::Frame(bytes_copy(b))
            },
            Phase::Closed => ReadStep::More,
        }
    }

    /// Reading failed, which ends the connection. Gives out the fault where it is worth
    /// reporting: not while the opening is read, not after a peer was silent for too long,
    /// not at an end between two frames, and not if it is an ordinary end.
    pub fn fail(&mut self, fault: ReadFault) -> (res: Option<ReadFault>)
        ensures
            final(self).token == old(self).token,
            final(self).phase == Phase::Closed,
            res == (if (old(self).phase == Phase::Length || old(self).phase is Payload) && fault
                == ReadFault::Other {
                Some(fault)
            } else {
                None
            }),
    {
        let phase = self.phase;
        self.phase = Phase::Closed;
        match phase {
            Phase::Handshake => None,
            Phase::Closed => None,
            _ => {
                if is_expected_disconnect(fault) {
                    None
                } else {
                    Some(fault)
                }
            },
        }
    }
}

// ---------------------------------------------------------------------------------
// Sending
// ---------------------------------------------------------------------------------
/// An actor on another node.
#[derive(Debug)]
pub struct RemoteActorRef {
    pub node_addr: String,
    pub actor_id: String,
    pub auth_token: Option<[u8; AUTH_TOKEN_LEN]>,
    /// Whether there is a connection to the node.
    pub connected: bool,
}

/// What to do for one message.
#[derive(Debug)]
pub struct SendPlan {
    /// Whether to connect first.
    pub dial: bool,
    /// What to write on a new connection before anything else.
    pub opening: Option<Vec<u8>>,
    pub frame: Vec<u8>,
}

impl RemoteActorRef {
    /// An actor on a node without a token.
    pub fn new(node_addr: &str, actor_id: &str) -> (res: Self)
        ensures
            res.node_addr@ == node_addr@,
            res.actor_id@ == actor_id@,
            res.auth_token is None,
            !res.connected,
    {
        RemoteActorRef {
            node_addr: node_addr.to_owned(),
            actor_id: actor_id.to_owned(),
            auth_token: None,
            connected: false,
        }
    }

    /// An actor on a node with a token.
    pub fn with_auth(node_addr: &str, actor_id: &str, token: [u8; AUTH_TOKEN_LEN]) -> (res: Self)
        ensures
            res.node_addr@ == node_addr@,
            res.actor_id@ == actor_id@,
            res.auth_token == Some(token),
            !res.connected,
    {
        RemoteActorRef {
            node_addr: node_addr.to_owned(),
            actor_id: actor_id.to_owned(),
            auth_token: Some(token),
            connected: false,
        }
    }

    /// What sending an encoded message takes.
    pub open spec fn plans(&self, encoded: Seq<u8>, res: Result<SendPlan, ClusterError>) -> bool {
        let p = payload(self.actor_id@, encoded);
        if p.len() > MAX_PAYLOAD {
            res matches Err(ClusterError::Oversize(n)) && (p.len() <= usize::MAX ==> n == p.len())
        } else {
            res matches Ok(plan) && {
                &&& plan.dial == !self.connected
                &&& plan.frame@ == framed(p)
                &&& match plan.opening {
                    Some(o) => !self.connected && self.auth_token is Some && o@ == greeting(
                        self.auth_token->0@,
                    ),
                    None => self.connected || self.auth_token is None,
                }
            }
        }
    }

    /// What to do to send an encoded message.
    pub fn plan(&self, encoded: &[u8]) -> (res: Result<SendPlan, ClusterError>)
        ensures
            self.plans(encoded@, res),
    {
        let id = self.actor_id.as_str().as_bytes();
        let len = id.len().saturating_add(1).saturating_add(encoded.len());
        if len > MAX_PAYLOAD {
            return Err(ClusterError::Oversize(len));
        }
        let mut frame: Vec<u8> = Vec::new();
        push_be4(&mut frame, len as u32);
        push_text(&mut frame, self.actor_id.as_str());
        frame.push(0);
        push_bytes(&mut frame, encoded);
        proof {
            let p = payload(self.actor_id@, encoded@);
            assert(p.len() == len);
            assert(frame@ =~= framed(p));
        }
        let opening = if self.connected {
            None
        } else {
            match &self.auth_token {
                Some(t) => Some(client_handshake(t)),
                None => None,
            }
        };
        Ok(SendPlan { dial: !self.connected, opening, frame })
    }

    /// What to do to send a message. A message that is too large is refused.
    pub fn send<M: Codec>(&self, msg: M) -> (res: Result<SendPlan, ClusterError>)
        ensures
            exists|encoded: Vec<u8>|
                #[trigger] call_ensures(M::encode, (&msg,), encoded) && self.plans(encoded@, res),
    {
        let encoded = msg.encode();
        let res = self.plan(encoded.as_slice());
        proof {
            assert(call_ensures(M::encode, (&msg,), encoded));
        }
        res
    }

    /// How a plan went: the connection is kept if everything was written, else it is
    /// dropped and the next message connects anew.
    pub fn sent(&mut self, outcome: Result<(), String>) -> (res: Result<(), ClusterError>)
        ensures
            final(self).node_addr == old(self).node_addr,
            final(self).actor_id == old(self).actor_id,
            final(self).auth_token == old(self).auth_token,
            match outcome {
                Ok(_) => final(self).connected && res is Ok,
                Err(m) => !final(self).connected && res == Err::<(), ClusterError>(
                    ClusterError::Io(m),
                ),
            },
    {
        match outcome {
            Ok(_) => {
                self.connected = true;
                Ok(())
            },
            Err(m) => {
                self.connected = false;
                Err(ClusterError::Io(m))
            },
        }
    }
}

// ---------------------------------------------------------------------------------
// Laws
// ---------------------------------------------------------------------------------
/// Four bytes give back the number that was written into them.
pub proof fn law_length_round_trip(n: nat)
    requires
        n < 0x1_0000_0000,
    ensures
        be4(n).len() == 4,
        be4_value(be4(n)) == n,
{
    let a = n / 0x100_0000;
    let b = n / 0x1_0000 % 0x100;
    let c = n / 0x100 % 0x100;
    let d = n % 0x100;
    assert(a < 0x100);
    assert(n == a * 0x100_0000 + b * 0x1_0000 + c * 0x100 + d);
}

/// A frame that was sent is read whole, whatever frames come before it and after it: from
/// between two frames, its first four bytes ask for exactly the rest of it, and that is
/// handed out as the payload that was sent.
pub proof fn law_frame_is_read_whole(token: Option<[u8; AUTH_TOKEN_LEN]>, p: Seq<u8>)
    requires
        p.len() <= MAX_PAYLOAD,
    ensures
        ({
            let (mid, first) = advance(token, Phase::Length, framed(p).take(4));
            &&& mid == Phase::Payload(p.len() as usize)
            &&& first == Outcome::More
            &&& wanted(mid) == framed(p).skip(4).len()
            &&& advance(token, mid, framed(p).skip(4)) == (Phase::Length, Outcome::Frame(p))
        }),
{
    law_length_round_trip(p.len());
    assert(framed(p).take(4) =~= be4(p.len()));
    assert(framed(p).skip(4) =~= p);
}

/// A message sent to an actor arrives at that actor, unchanged; an actor's id with a NUL
/// in it can not be sent to.
pub proof fn law_message_arrives(
    id: Seq<char>,
    encoded: Seq<u8>,
    registry: Map<Seq<char>, usize>,
)
    requires
        forall|i: int| 0 <= i < encode_utf8(id).len() ==> #[trigger] encode_utf8(id)[i] != 0,
    ensures
        fate(payload(id, encoded), registry) == if registry.dom().contains(id) {
            Fate::Deliver { slot: registry[id], message: encoded }
        } else {
            Fate::Unknown(id)
        },
{
    let p = payload(id, encoded);
    let n = encode_utf8(id).len() as int;
    lemma_seek(p, 0, 0);
    let z = seek(p, 0, 0);
    assert(p[n] == 0);
    if z < n {
        assert(p[z] == encode_utf8(id)[z]);
    }
    assert(z == n);
    assert(p.take(z) =~= encode_utf8(id));
    assert(p.skip(z + 1) =~= encoded);
    encode_utf8_valid_utf8(id);
    encode_utf8_decode_utf8(id);
}

/// What a connection has led to after some pieces: the phase, and whether it handed out a
/// frame.
pub open spec fn run(
    token: Option<[u8; AUTH_TOKEN_LEN]>,
    phase: Phase,
    pieces: Seq<Seq<u8>>,
) -> (Phase, bool)
    decreases pieces.len(),
{
    if pieces.len() == 0 {
        (phase, false)
    } else {
        let (before, seen) = run(token, phase, pieces.drop_last());
        let (after, o) = advance(token, before, pieces.last());
        (after, seen || o is Frame)
    }
}

/// On a node with a token, a connection hands out a frame only if its first piece was the
/// right opening.
pub proof fn law_no_frame_without_token(token: [u8; AUTH_TOKEN_LEN], pieces: Seq<Seq<u8>>)
    requires
        pieces.len() > 0,
        pieces[0] != greeting(token@),
    ensures
        !run(Some(token), Phase::Handshake, pieces).1,
        run(Some(token), Phase::Handshake, pieces).0 == Phase::Closed,
    decreases pieces.len(),
{
    reveal_with_fuel(run, 2);
    if pieces.len() > 1 {
        assert(pieces.drop_last()[0] == pieces[0]);
        law_no_frame_without_token(token, pieces.drop_last());
    } else {
        assert(pieces.drop_last().len() == 0);
        assert(pieces.last() == pieces[0]);
    }
}

/// A frame on the wire: the length of the rest in four bytes, the largest first, then the id of the
/// actor, a NUL, and the message.
pub proof fn law_frame_on_the_wire(id: Seq<char>, encoded: Seq<u8>)
    requires
        payload(id, encoded).len() < 0x1_0000_0000,
    ensures
        ({
            let f = framed(payload(id, encoded));
            let n = encode_utf8(id).len();
            &&& f.len() == 4 + n + 1 + encoded.len()
            &&& f[0] * 0x100_0000 + f[1] * 0x1_0000 + f[2] * 0x100 + f[3] == f.len() - 4
            &&& f.subrange(4, 4 + n as int) == encode_utf8(id)
            &&& f[4 + n as int] == 0
            &&& f.skip(5 + n as int) == encoded
        }),
{
    let p = payload(id, encoded);
    let f = framed(p);
    let n = encode_utf8(id).len();
    let l = p.len();
    assert(l == (l / 0x100_0000 % 0x100) * 0x100_0000 + (l / 0x1_0000 % 0x100) * 0x1_0000 + (l / 0x100
        % 0x100) * 0x100 + l % 0x100);
    assert(f.subrange(4, 4 + n as int) =~= encode_utf8(id));
    assert(f.skip(5 + n as int) =~= encoded);
}

/// A connection to a node with a token passes with `AUTH` and the token and with nothing else; to
/// one without a token nothing comes before the frames. A frame of more than 4 MiB closes it.
pub proof fn law_openings_and_limits(token: [u8; AUTH_TOKEN_LEN], b: Seq<u8>, n: nat)
    ensures
        opening_phase(Some(token)) == Phase::Handshake,
        opening_phase(None) == Phase::Length,
        greeting(token@) =~= seq![0x41u8, 0x55u8, 0x54u8, 0x48u8] + token@,
        advance(Some(token), Phase::Handshake, b) == (if b == seq![0x41u8, 0x55u8, 0x54u8, 0x48u8]
            + token@ {
            (Phase::Length, Outcome::More)
        } else {
            (Phase::Closed, Outcome::Rejected)
        }),
        wanted(Phase::Handshake) == 36 && wanted(Phase::Length) == 4,
        n < 0x1_0000_0000 ==> advance(Some(token), Phase::Length, be4(n)) == (if n > 4194304 {
            (Phase::Closed, Outcome::Oversize(n as int))
        } else {
            (Phase::Payload(n as usize), Outcome::More)
        }),
{
    if n < 0x1_0000_0000 {
        law_length_round_trip(n);
    }
}

/// A payload without a NUL is malformed, and one whose id is not UTF-8 has a bad id; neither is
/// delivered.
pub proof fn law_bad_payloads(p: Seq<u8>, z: int, registry: Map<Seq<char>, usize>)
    ensures
        (forall|i: int| 0 <= i < p.len() ==> #[trigger] p[i] != 0) ==> fate(p, registry) is Malformed,
        0 <= z < p.len() && p[z] == 0 && (forall|i: int| 0 <= i < z ==> #[trigger] p[i] != 0)
            && !valid_utf8(p.take(z)) ==> fate(p, registry) is BadId,
{
    lemma_seek(p, 0, 0);
    let w = seek(p, 0, 0);
    if 0 <= z < p.len() && p[z] == 0 && (forall|i: int| 0 <= i < z ==> #[trigger] p[i] != 0) {
        assert(w == z) by {
            if w < z {
                assert(p[w] != 0);
            }
        }
    }
}

/// What is sent to an actor: a connection is made where there is none, and begins with `AUTH` and
/// the token if there is one; the frame has the actor's id and the message. A message that does not
/// fit in 4 MiB with the id is refused.
pub proof fn law_what_is_sent(
    to: RemoteActorRef,
    encoded: Seq<u8>,
    res: Result<SendPlan, ClusterError>,
)
    requires
        to.plans(encoded, res),
    ensures
        res is Err <==> encode_utf8(to.actor_id@).len() + 1 + encoded.len() > 4194304,
        res matches Ok(plan) ==> {
            let f = plan.frame@;
            let n = encode_utf8(to.actor_id@).len() as int;
            &&& plan.dial == !to.connected
            &&& plan.opening is Some <==> !to.connected && to.auth_token is Some
            &&& plan.opening matches Some(o) ==> o@ == seq![0x41u8, 0x55u8, 0x54u8, 0x48u8]
                + to.auth_token->0@
            &&& f.len() == 5 + n + encoded.len()
            &&& f[0] * 0x100_0000 + f[1] * 0x1_0000 + f[2] * 0x100 + f[3] == f.len() - 4
            &&& f.subrange(4, 4 + n) == encode_utf8(to.actor_id@)
            &&& f[4 + n] == 0
            &&& f.skip(5 + n) == encoded
        },
{
    if res is Ok {
        law_frame_on_the_wire(to.actor_id@, encoded);
    }
}

} // verus!
