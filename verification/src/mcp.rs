//! Client for the Model Context Protocol: JSON-RPC, one JSON text to a line.
//!
//! The handshake and every call are machines. The caller sends the lines that they give it
//! and hands over what comes back.

use vstd::prelude::*;
use vstd::utf8::*;

use crate::json::{
    document, lemma_number, lemma_object, lemma_signed_number, lemma_string, member, member_from,
    member_str, object_json, parse, parsed, raw_members, raw_obj, str_json, str_text,
    text, vals_of, write_json, Json, Val,
};
use crate::text::{
    dec, dec_string, maybe, parse_signed, parse_unsigned, push_signed, readable, signed_dec,
    signed_value, text_eq, trim, trimmed, unsigned_value, utf8_lossy,
};

verus! {

#[derive(Debug)]
pub enum McpError {
    /// The other side could not be reached.
    Transport(String),
    /// The other side does not keep to the protocol.
    Protocol(String),
    /// The server answered with an error.
    Server { code: i64, message: String },
}

/// Mathematical form of an `McpError`.
pub enum Mishap {
    Transport(Seq<char>),
    Protocol(Seq<char>),
    Server { code: int, message: Seq<char> },
}

impl View for McpError {
    type V = Mishap;

    open spec fn view(&self) -> Mishap {
        match *self {
            McpError::Transport(m) => Mishap::Transport(m@),
            McpError::Protocol(m) => Mishap::Protocol(m@),
            McpError::Server { code, message } => Mishap::Server {
                code: code as int,
                message: message@,
            },
        }
    }
}

/// The text that describes an error.
pub open spec fn mishap_text(m: Mishap) -> Seq<char> {
    match m {
        Mishap::Transport(m) => "transport: "@ + m,
        Mishap::Protocol(m) => "protocol: "@ + m,
        Mishap::Server { code, message } => "server error "@ + signed_dec(code) + ": "@ + message,
    }
}

impl McpError {
    /// The text that describes the error.
    pub fn message(&self) -> (res: String)
        ensures
            res@ == mishap_text(self@),
    {
        match self {
            McpError::Transport(m) => {
                let mut res = "transport: ".to_owned();
                res.push_str(m.as_str());
                res
            },
            McpError::Protocol(m) => {
                let mut res = "protocol: ".to_owned();
                res.push_str(m.as_str());
                res
            },
            McpError::Server { code, message } => {
                let mut res = "server error ".to_owned();
                push_signed(&mut res, *code);
                res.push_str(": ");
                res.push_str(message.as_str());
                res
            },
        }
    }
}

fn protocol(m: &str) -> (res: McpError)
    ensures
        res@ == Mishap::Protocol(m@),
{
    McpError::Protocol(m.to_owned())
}

// ---------------------------------------------------------------------------------
// JSON-RPC
// ---------------------------------------------------------------------------------
/// The params member, where there are parameters.
pub open spec fn params_members(params: Option<Seq<char>>) -> Seq<(Seq<char>, Seq<char>)> {
    match params {
        Some(p) => seq![("params"@, p)],
        None => Seq::empty(),
    }
}

/// A request.
pub open spec fn request_text(id: nat, method: Seq<char>, params: Option<Seq<char>>) -> Seq<char> {
    raw_obj(
        seq![("jsonrpc"@, str_text("2.0"@)), ("id"@, dec(id)), ("method"@, str_text(method))]
            + params_members(params),
    )
}

/// A notification, which has no id and gets no response.
pub open spec fn notification_text(method: Seq<char>) -> Seq<char> {
    raw_obj(seq![("jsonrpc"@, str_text("2.0"@)), ("method"@, str_text(method))])
}

fn build_request(id: u64, method: &str, params: Option<String>) -> (res: String)
    ensures
        res@ == request_text(id as nat, method@, maybe(params)),
{
    let ghost p = maybe(params);
    let mut o: Vec<(&str, String)> = Vec::new();
    o.push(("jsonrpc", str_json("2.0")));
    o.push(("id", dec_string(id as u128)));
    o.push(("method", str_json(method)));
    if let Some(t) = params {
        o.push(("params", t));
    }
    proof {
        assert(raw_members(o@) =~= seq![
            ("jsonrpc"@, str_text("2.0"@)),
            ("id"@, dec(id as nat)),
            ("method"@, str_text(method@)),
        ] + params_members(p));
    }
    object_json(&o)
}

fn build_notification(method: &str) -> (res: String)
    ensures
        res@ == notification_text(method@),
{
    let mut o: Vec<(&str, String)> = Vec::new();
    o.push(("jsonrpc", str_json("2.0")));
    o.push(("method", str_json(method)));
    proof {
        assert(raw_members(o@) =~= seq![
            ("jsonrpc"@, str_text("2.0"@)),
            ("method"@, str_text(method@)),
        ]);
    }
    object_json(&o)
}

/// The id of a message, where it is a whole number that is not negative.
pub open spec fn frame_id(v: Val) -> Option<nat> {
    match member(v, "id"@) {
        Some(Val::Num(n)) => unsigned_value(n, u64::MAX as nat),
        _ => None,
    }
}

/// The error that an error object tells of.
pub open spec fn server_error(e: Val) -> Mishap {
    let code = match member(e, "code"@) {
        Some(Val::Num(n)) => match signed_value(n, i64::MIN as int, i64::MAX as int) {
            Some(k) => k,
            None => 0,
        },
        _ => 0,
    };
    let message = match member_str(e, "message"@) {
        Some(m) => m,
        None => Seq::empty(),
    };
    Mishap::Server { code, message }
}

/// What a message is.
pub enum Frame {
    /// The response to a request: its result, or an error.
    Response { id: nat, failed: Option<Mishap> },
    Notification,
    Unknown,
}

/// What a message is.
pub open spec fn classify(v: Val) -> Frame {
    match frame_id(v) {
        Some(id) => match member(v, "error"@) {
            Some(e) => Frame::Response { id, failed: Some(server_error(e)) },
            None => if member(v, "result"@) is Some {
                Frame::Response { id, failed: None }
            } else {
                Frame::Unknown
            },
        },
        None => if member_str(v, "method"@) is Some {
            Frame::Notification
        } else {
            Frame::Unknown
        },
    }
}

/// Whether a line holds nothing but blanks.
pub open spec fn blank(line: Seq<u8>) -> bool {
    forall|i: int|
        0 <= i < line.len() ==> (#[trigger] line[i] == 0x20 || line[i] == 0x09 || line[i] == 0x0d)
}

/// What a line means to someone who waits for the response to request `id`.
pub enum Heard {
    /// Nothing: it is blank, a notification, or the response to another request.
    Nothing,
    /// The message with the result.
    Answer(Val),
    Failed(Mishap),
}

/// What a line means to someone who waits for the response to request `id`.
pub open spec fn heard(id: nat, line: Seq<u8>) -> Heard {
    if blank(line) {
        Heard::Nothing
    } else {
        match parsed(line) {
            None => Heard::Failed(
                Mishap::Protocol("invalid JSON-RPC frame: "@ + "invalid response: invalid JSON"@),
            ),
            Some(v) => match classify(v) {
                Frame::Response { id: other, failed } => if other != id {
                    Heard::Nothing
                } else {
                    match failed {
                        Some(e) => Heard::Failed(e),
                        None => Heard::Answer(v),
                    }
                },
                Frame::Notification => Heard::Nothing,
                Frame::Unknown => Heard::Failed(
                    Mishap::Protocol("unrecognised frame: "@ + readable(line)),
                ),
            },
        }
    }
}

/// Whether a line holds nothing but blanks.
pub fn is_blank(line: &[u8]) -> (res: bool)
    ensures
        res == blank(line@),
{
    let mut i: usize = 0;
    while i < line.len()
        invariant
            i <= line@.len(),
            forall|k: int|
                0 <= k < i ==> (#[trigger] line@[k] == 0x20 || line@[k] == 0x09 || line@[k]
                    == 0x0d),
        decreases line.len() - i,
    {
        let b: u8 = line[i];
        if !(b == 0x20 || b == 0x09 || b == 0x0d) {
            return false;
        }
        i += 1;
    }
    true
}

fn read_id(v: &Json) -> (res: Option<u64>)
    ensures
        match res {
            Some(n) => frame_id(v@) == Some(n as nat),
            None => frame_id(v@) is None,
        },
{
    match v.get("id") {
        Some(Json::Num(n)) => parse_unsigned(n.as_str(), u64::MAX),
        _ => None,
    }
}

fn read_error(e: &Json) -> (res: McpError)
    ensures
        res@ == server_error(e@),
{
    let code: i64 = match e.get("code") {
        Some(Json::Num(n)) => match parse_signed(n.as_str(), i64::MIN, i64::MAX) {
            Some(k) => k,
            None => 0,
        },
        _ => 0,
    };
    let message: String = match e.get_str("message") {
        Some(m) => m.to_owned(),
        None => String::new(),
    };
    McpError::Server { code, message }
}

/// What a line means to someone who waits for the response to request `id`: nothing, the
/// message with the result, or a failure.
pub fn hear(id: u64, line: &[u8]) -> (res: Result<Option<Json>, McpError>)
    ensures
        match heard(id as nat, line@) {
            Heard::Nothing => res matches Ok(None),
            Heard::Answer(v) => res matches Ok(Some(j)) && j@ == v,
            Heard::Failed(m) => res matches Err(e) && e@ == m,
        },
{
    if is_blank(line) {
        return Ok(None);
    }
    let v = match parse(line) {
        Ok(v) => v,
        Err(e) => {
            let mut m = "invalid JSON-RPC frame: ".to_owned();
            m.push_str(e.message().as_str());
            return Err(McpError::Protocol(m));
        },
    };
    match read_id(&v) {
        Some(other) => {
            if let Some(e) = v.get("error") {
                if other != id {
                    return Ok(None);
                }
                return Err(read_error(e));
            }
            if v.get("result").is_some() {
                if other != id {
                    return Ok(None);
                }
                return Ok(Some(v));
            }
        },
        None => {
            if v.get_str("method").is_some() {
                return Ok(None);
            }
        },
    }
    let mut m = "unrecognised frame: ".to_owned();
    m.push_str(utf8_lossy(line).as_str());
    Err(McpError::Protocol(m))
}

// ---------------------------------------------------------------------------------
// Tools
// ---------------------------------------------------------------------------------
/// A tool that a server offers. The schema is a JSON text.
#[derive(Debug, Clone)]
pub struct McpTool {
    pub name: String,
    pub description: String,
    pub input_schema: String,
}

/// Mathematical form of an `McpTool`.
pub struct Offer {
    pub name: Seq<char>,
    pub description: Seq<char>,
    pub input_schema: Seq<char>,
}

impl View for McpTool {
    type V = Offer;

    open spec fn view(&self) -> Offer {
        Offer {
            name: self.name@,
            description: self.description@,
            input_schema: self.input_schema@,
        }
    }
}

/// The tools, in mathematical form.
pub open spec fn offers(t: Seq<McpTool>) -> Seq<Offer> {
    Seq::new(t.len(), |i: int| t[i]@)
}

/// The tool that an entry of a catalog tells of.
pub open spec fn offer_of(t: Val) -> Result<Offer, Seq<char>> {
    match member_str(t, "name"@) {
        None => Err("tool entry missing 'name'"@),
        Some(name) => match member(t, "inputSchema"@) {
            None => Err("tool '"@ + name + "' missing inputSchema"@),
            Some(schema) => Ok(
                Offer {
                    name,
                    description: match member_str(t, "description"@) {
                        Some(d) => d,
                        None => Seq::empty(),
                    },
                    input_schema: text(schema),
                },
            ),
        },
    }
}

/// The tools that the first `n` entries tell of; the first bad entry decides the error.
pub open spec fn offers_of(a: Seq<Val>, n: nat) -> Result<Seq<Offer>, Seq<char>>
    decreases n,
{
    if n == 0 {
        Ok(Seq::empty())
    } else {
        match offers_of(a, (n - 1) as nat) {
            Err(m) => Err(m),
            Ok(s) => match offer_of(a[n - 1]) {
                Err(m) => Err(m),
                Ok(o) => Ok(s.push(o)),
            },
        }
    }
}

/// The catalog in a result.
pub open spec fn catalog(v: Val) -> Result<Seq<Offer>, Seq<char>> {
    match member(v, "tools"@) {
        Some(Val::Arr(a)) => offers_of(a, a.len()),
        _ => Err("tools/list: no 'tools' array"@),
    }
}

proof fn lemma_offers_of(a: Seq<Val>, n: nat, m: nat)
    requires
        n <= m,
        offers_of(a, n) is Err,
    ensures
        offers_of(a, m) == offers_of(a, n),
    decreases m,
{
    if n < m {
        lemma_offers_of(a, n, (m - 1) as nat);
    }
}

fn read_offer(t: &Json) -> (res: Result<McpTool, McpError>)
    ensures
        match offer_of(t@) {
            Ok(o) => res matches Ok(x) && x@ == o,
            Err(m) => res matches Err(e) && e@ == Mishap::Protocol(m),
        },
{
    let name = match t.get_str("name") {
        Some(n) => n.to_owned(),
        None => {
            return Err(protocol("tool entry missing 'name'"));
        },
    };
    let description = match t.get_str("description") {
        Some(d) => d.to_owned(),
        None => String::new(),
    };
    match t.get("inputSchema") {
        Some(schema) => {
            let mut input_schema = String::new();
            write_json(&mut input_schema, schema);
            proof {
                assert(input_schema@ =~= text(schema@));
            }
            Ok(McpTool { name, description, input_schema })
        },
        None => {
            let mut m = "tool '".to_owned();
            m.push_str(name.as_str());
            m.push_str("' missing inputSchema");
            Err(McpError::Protocol(m))
        },
    }
}

/// The catalog in a result.
pub fn parse_tools_list(v: &Json) -> (res: Result<Vec<McpTool>, McpError>)
    ensures
        match catalog(v@) {
            Ok(s) => res matches Ok(t) && offers(t@) == s,
            Err(m) => res matches Err(e) && e@ == Mishap::Protocol(m),
        },
{
    let items = match v.get("tools") {
        Some(Json::Arr(a)) => a,
        _ => {
            return Err(protocol("tools/list: no 'tools' array"));
        },
    };
    let ghost a = vals_of(items@);
    let mut out: Vec<McpTool> = Vec::new();
    let mut i: usize = 0;
    proof {
        assert(offers(out@) =~= Seq::<Offer>::empty());
    }
    while i < items.len()
        invariant
            i <= items@.len(),
            a == vals_of(items@),
            catalog(v@) == offers_of(a, items@.len()),
            offers_of(a, i as nat) == Ok::<Seq<Offer>, Seq<char>>(offers(out@)),
        decreases items.len() - i,
    {
        proof {
            assert(a[i as int] == items@[i as int]@);
        }
        let ghost o0 = out@;
        match read_offer(&items[i]) {
            Ok(t) => {
                out.push(t);
                proof {
                    assert(offers(out@) =~= offers(o0).push(t@));
                }
            },
            Err(e) => {
                proof {
                    lemma_offers_of(a, (i + 1) as nat, items@.len());
                }
                return Err(e);
            },
        }
        i += 1;
    }
    Ok(out)
}

/// The texts of the first `n` blocks that are texts, a newline between two.
pub open spec fn block_text(a: Seq<Val>, n: nat) -> Seq<char>
    decreases n,
{
    if n == 0 {
        Seq::empty()
    } else {
        let before = block_text(a, (n - 1) as nat);
        let b = a[n - 1];
        match member_str(b, "text"@) {
            Some(t) if member_str(b, "type"@) == Some("text"@) => if before.len() > 0 {
                before.push('\n') + t
            } else {
                t
            },
            _ => before,
        }
    }
}

/// The text of a result.
pub open spec fn result_text(v: Val) -> Result<Seq<char>, Seq<char>> {
    match member(v, "content"@) {
        Some(Val::Arr(a)) => Ok(block_text(a, a.len())),
        Some(_) => Err("tools/call: content not an array"@),
        None => Ok(Seq::empty()),
    }
}

/// The text of a result. Blocks that are no texts are left out.
pub fn extract_text(result: &Json) -> (res: Result<String, McpError>)
    ensures
        match result_text(result@) {
            Ok(s) => res matches Ok(t) && t@ == s,
            Err(m) => res matches Err(e) && e@ == Mishap::Protocol(m),
        },
{
    let items = match result.get("content") {
        Some(Json::Arr(a)) => a,
        Some(_) => {
            return Err(protocol("tools/call: content not an array"));
        },
        None => {
            return Ok(String::new());
        },
    };
    let ghost a = vals_of(items@);
    let mut out = String::new();
    let mut empty = true;
    let mut i: usize = 0;
    while i < items.len()
        invariant
            i <= items@.len(),
            a == vals_of(items@),
            out@ == block_text(a, i as nat),
            empty == (out@.len() == 0),
        decreases items.len() - i,
    {
        proof {
            assert(a[i as int] == items@[i as int]@);
        }
        let is_text = match items[i].get_str("type") {
            Some(t) => text_eq(t, "text"),
            None => false,
        };
        if is_text {
            if let Some(t) = items[i].get_str("text") {
                if !empty {
                    out.push('\n');
                }
                out.push_str(t);
                proof {
                    assert(out@ =~= block_text(a, (i + 1) as nat));
                }
                empty = empty && t.as_bytes().len() == 0;
                proof {
                    lemma_empty_bytes(t@);
                }
            }
        }
        i += 1;
    }
    Ok(out)
}

proof fn lemma_empty_bytes(t: Seq<char>)
    ensures
        (encode_utf8(t).len() == 0) == (t.len() == 0),
{
    if t.len() == 0 {
        assert(t =~= Seq::<char>::empty());
    }
    encode_utf8_decode_utf8(t);
    if encode_utf8(t).len() == 0 {
        assert(encode_utf8(t) =~= encode_utf8(Seq::<char>::empty()));
        encode_utf8_decode_utf8(Seq::<char>::empty());
    }
}

// ---------------------------------------------------------------------------------
// Client
// ---------------------------------------------------------------------------------
/// What happened to a client.
#[derive(Debug)]
pub enum Event {
    /// The line was sent.
    Sent,
    /// A line came.
    Line(Vec<u8>),
    /// Sending or receiving failed.
    Failed(String),
}

/// A server, after the handshake.
#[derive(Debug)]
pub struct McpClient {
    /// Id of the next request.
    pub next_id: u64,
    pub catalog: Vec<McpTool>,
}

/// What the handshake waits for.
#[derive(Debug, Clone, Copy, PartialEq, Eq, Structural)]
pub enum Stage {
    /// That `initialize` is sent.
    SendInit,
    /// Its response.
    AwaitInit,
    /// That `notifications/initialized` is sent.
    SendReady,
    /// That `tools/list` is sent.
    SendList,
    /// Its response.
    AwaitList,
    Over,
}

/// The handshake with a server.
#[derive(Debug)]
pub struct Handshake {
    pub stage: Stage,
}

/// What the handshake leads to.
#[derive(Debug)]
pub enum Move {
    /// Send this line.
    Send(String),
    /// Receive a line.
    Receive,
    /// It is done.
    Ready(McpClient),
    Failed(McpError),
}

/// Mathematical form of a `Move`.
pub enum Next {
    Send(Seq<char>),
    Receive,
    Ready { next_id: int, tools: Seq<Offer> },
    Failed(Mishap),
}

impl View for Move {
    type V = Next;

    open spec fn view(&self) -> Next {
        match *self {
            Move::Send(l) => Next::Send(l@),
            Move::Receive => Next::Receive,
            Move::Ready(c) => Next::Ready {
                next_id: c.next_id as int,
                tools: offers(c.catalog@),
            },
            Move::Failed(e) => Next::Failed(e@),
        }
    }
}

/// The parameters of `initialize`.
pub open spec fn init_params() -> Seq<char> {
    "{\"protocolVersion\":\"2024-11-05\",\"capabilities\":{},\"clientInfo\":{\"name\":\"sandcastle-mcp\",\"version\":\"0.0.1\"}}"@
}

/// What the response to `initialize` leads to.
pub open spec fn greeted(v: Val) -> (Stage, Next) {
    match member(v, "result"@) {
        None => (
            Stage::Over,
            Next::Failed(Mishap::Protocol("initialize response missing 'result'"@)),
        ),
        Some(r) => if member(r, "protocolVersion"@) is None {
            (
                Stage::Over,
                Next::Failed(Mishap::Protocol("initialize response missing protocolVersion"@)),
            )
        } else {
            (Stage::SendReady, Next::Send(notification_text("notifications/initialized"@)))
        },
    }
}

/// What the response to `tools/list` leads to.
pub open spec fn listed(v: Val) -> Next {
    match member(v, "result"@) {
        None => Next::Failed(Mishap::Protocol("tools/list response missing 'result'"@)),
        Some(r) => match catalog(r) {
            Err(m) => Next::Failed(Mishap::Protocol(m)),
            Ok(tools) => Next::Ready { next_id: 3, tools },
        },
    }
}

/// What an event leads to in the handshake.
pub open spec fn shake(stage: Stage, event: Event) -> (Stage, Next) {
    match event {
        Event::Failed(m) => (Stage::Over, Next::Failed(Mishap::Transport(m@))),
        Event::Sent => match stage {
            Stage::SendInit => (Stage::AwaitInit, Next::Receive),
            Stage::SendReady => (
                Stage::SendList,
                Next::Send(request_text(2, "tools/list"@, None)),
            ),
            Stage::SendList => (Stage::AwaitList, Next::Receive),
            _ => (stage, Next::Receive),
        },
        Event::Line(l) => match stage {
            Stage::AwaitInit => match heard(1, l@) {
                Heard::Nothing => (stage, Next::Receive),
                Heard::Failed(m) => (Stage::Over, Next::Failed(m)),
                Heard::Answer(v) => greeted(v),
            },
            Stage::AwaitList => match heard(2, l@) {
                Heard::Nothing => (stage, Next::Receive),
                Heard::Failed(m) => (Stage::Over, Next::Failed(m)),
                Heard::Answer(v) => (Stage::Over, listed(v)),
            },
            _ => (stage, Next::Receive),
        },
    }
}

impl Handshake {
    /// Begins a handshake: the first line to send.
    pub fn begin() -> (res: (Self, String))
        ensures
            res.0.stage == Stage::SendInit,
            res.1@ == request_text(1, "initialize"@, Some(init_params())),
    {
        let params = "{\"protocolVersion\":\"2024-11-05\",\"capabilities\":{},\"clientInfo\":{\"name\":\"sandcastle-mcp\",\"version\":\"0.0.1\"}}".to_owned();
        (Handshake { stage: Stage::SendInit }, build_request(1, "initialize", Some(params)))
    }

    fn over(&mut self, e: McpError) -> (res: Move)
        ensures
            final(self).stage == Stage::Over,
            res@ == Next::Failed(e@),
    {
        self.stage = Stage::Over;
        Move::Failed(e)
    }

    fn greet(&mut self, v: &Json) -> (res: Move)
        ensures
            (final(self).stage, res@) == greeted(v@),
    {
        match v.get("result") {
            None => self.over(protocol("initialize response missing 'result'")),
            Some(r) => {
                if r.get("protocolVersion").is_none() {
                    return self.over(protocol("initialize response missing protocolVersion"));
                }
                self.stage = Stage::SendReady;
                Move::Send(build_notification("notifications/initialized"))
            },
        }
    }

    fn list(&mut self, v: &Json) -> (res: Move)
        ensures
            final(self).stage == Stage::Over,
            res@ == listed(v@),
    {
        self.stage = Stage::Over;
        match v.get("result") {
            None => Move::Failed(protocol("tools/list response missing 'result'")),
            Some(r) => match parse_tools_list(r) {
                Err(e) => Move::Failed(e),
                Ok(catalog) => Move::Ready(McpClient { next_id: 3, catalog }),
            },
        }
    }

    /// What an event leads to.
    pub fn on(&mut self, event: &Event) -> (res: Move)
        ensures
            (final(self).stage, res@) == shake(old(self).stage, *event),
    {
        match event {
            Event::Failed(m) => self.over(McpError::Transport(m.clone())),
            Event::Sent => match self.stage {
                Stage::SendInit => {
                    self.stage = Stage::AwaitInit;
                    Move::Receive
                },
                Stage::SendReady => {
                    self.stage = Stage::SendList;
                    Move::Send(build_request(2, "tools/list", None))
                },
                Stage::SendList => {
                    self.stage = Stage::AwaitList;
                    Move::Receive
                },
                _ => Move::Receive,
            },
            Event::Line(l) => match self.stage {
                Stage::AwaitInit => match hear(1, l.as_slice()) {
                    Ok(None) => Move::Receive,
                    Err(e) => self.over(e),
                    Ok(Some(v)) => self.greet(&v),
                },
                Stage::AwaitList => match hear(2, l.as_slice()) {
                    Ok(None) => Move::Receive,
                    Err(e) => self.over(e),
                    Ok(Some(v)) => self.list(&v),
                },
                _ => Move::Receive,
            },
        }
    }
}

/// A call that waits for its response.
#[derive(Debug)]
pub struct PendingCall {
    pub id: u64,
}

/// The parameters of `tools/call`. Empty arguments are an empty object.
pub open spec fn call_params(name: Seq<char>, args: Seq<char>) -> Seq<char> {
    let a = if trim(args).len() == 0 {
        "{}"@
    } else {
        trim(args)
    };
    raw_obj(seq![("name"@, str_text(name)), ("arguments"@, a)])
}

/// What the response to a call says.
pub open spec fn called(v: Val) -> Result<Seq<char>, Mishap> {
    match member(v, "result"@) {
        None => Err(Mishap::Protocol("tools/call response missing 'result'"@)),
        Some(r) => match result_text(r) {
            Err(m) => Err(Mishap::Protocol(m)),
            Ok(t) => if member(r, "isError"@) == Some(Val::Bool(true)) {
                Err(Mishap::Server { code: 0, message: t })
            } else {
                Ok(t)
            },
        },
    }
}

/// What an event leads to in a call: nothing yet, or the outcome.
pub open spec fn call_event(id: nat, event: Event) -> Option<Result<Seq<char>, Mishap>> {
    match event {
        Event::Sent => None,
        Event::Failed(m) => Some(Err(Mishap::Transport(m@))),
        Event::Line(l) => match heard(id, l@) {
            Heard::Nothing => None,
            Heard::Failed(m) => Some(Err(m)),
            Heard::Answer(v) => Some(called(v)),
        },
    }
}

/// Where the handshake stands after the first `n` events, and what it called for last.
pub open spec fn handshake(events: Seq<Event>, n: nat) -> (Stage, Next)
    decreases n,
{
    if n == 0 {
        (Stage::SendInit, Next::Send(request_text(1, "initialize"@, Some(init_params()))))
    } else {
        shake(handshake(events, (n - 1) as nat).0, events[n - 1])
    }
}

impl McpClient {
    /// What the handshake calls for after some events: without any, the first line to send.
    pub fn with_transport(events: &Vec<Event>) -> (res: Move)
        ensures
            res@ == handshake(events@, events@.len()).1,
    {
        let (mut h, first) = Handshake::begin();
        let mut last = Move::Send(first);
        let mut i: usize = 0;
        while i < events.len()
            invariant
                i <= events@.len(),
                (h.stage, last@) == handshake(events@, i as nat),
            decreases events.len() - i,
        {
            last = h.on(&events[i]);
            i += 1;
        }
        last
    }

    /// The tools that the server offers.
    pub fn tools(&self) -> (res: &Vec<McpTool>)
        ensures
            res@ == self.catalog@,
    {
        &self.catalog
    }

    /// Begins a call of a tool: the line to send.
    pub fn call_tool(&mut self, name: &str, args: &str) -> (res: (PendingCall, String))
        ensures
            final(self).catalog == old(self).catalog,
            final(self).next_id == old(self).next_id.wrapping_add(1),
            res.0.id == old(self).next_id,
            res.1@ == request_text(
                old(self).next_id as nat,
                "tools/call"@,
                Some(call_params(name@, args@)),
            ),
    {
        let id = self.next_id;
        self.next_id = id.wrapping_add(1);
        let given = trimmed(args);
        proof {
            lemma_empty_bytes(given@);
        }
        let input = if given.as_str().as_bytes().len() == 0 {
            "{}".to_owned()
        } else {
            given
        };
        let mut o: Vec<(&str, String)> = Vec::new();
        o.push(("name", str_json(name)));
        o.push(("arguments", input));
        proof {
            assert(raw_members(o@) =~= seq![
                ("name"@, str_text(name@)),
                ("arguments"@, input@),
            ]);
        }
        let params = object_json(&o);
        (PendingCall { id }, build_request(id, "tools/call", Some(params)))
    }
}

impl PendingCall {
    /// What an event leads to: nothing yet, or the outcome of the call.
    pub fn on(&self, event: &Event) -> (res: Option<Result<String, McpError>>)
        ensures
            match call_event(self.id as nat, *event) {
                None => res is None,
                Some(Ok(t)) => res matches Some(Ok(s)) && s@ == t,
                Some(Err(m)) => res matches Some(Err(e)) && e@ == m,
            },
    {
        let line = match event {
            Event::Sent => {
                return None;
            },
            Event::Failed(m) => {
                return Some(Err(McpError::Transport(m.clone())));
            },
            Event::Line(l) => l,
        };
        let v = match hear(self.id, line.as_slice()) {
            Ok(None) => {
                return None;
            },
            Err(e) => {
                return Some(Err(e));
            },
            Ok(Some(v)) => v,
        };
        let r = match v.get("result") {
            None => {
                return Some(Err(protocol("tools/call response missing 'result'")));
            },
            Some(r) => r,
        };
        let is_error = match r.get("isError") {
            Some(Json::Bool(b)) => *b,
            _ => false,
        };
        match extract_text(r) {
            Err(e) => Some(Err(e)),
            Ok(t) => {
                if is_error {
                    Some(Err(McpError::Server { code: 0, message: t }))
                } else {
                    Some(Ok(t))
                }
            },
        }
    }
}

impl McpTool {
    pub fn name(&self) -> (res: &str)
        ensures
            res@ == self.name@,
    {
        self.name.as_str()
    }

    pub fn description(&self) -> (res: &str)
        ensures
            res@ == self.description@,
    {
        self.description.as_str()
    }

    pub fn input_schema(&self) -> (res: &str)
        ensures
            res@ == self.input_schema@,
    {
        self.input_schema.as_str()
    }
}

/// The outcome of a call as a tool gives it: an error is its text.
pub fn tool_outcome(r: Result<String, McpError>) -> (res: Result<String, String>)
    ensures
        match r {
            Ok(t) => res == Ok::<String, String>(t),
            Err(e) => res matches Err(m) && m@ == mishap_text(e@),
        },
{
    match r {
        Ok(t) => Ok(t),
        Err(e) => Err(e.message()),
    }
}

// ---------------------------------------------------------------------------------
// Laws
// ---------------------------------------------------------------------------------
/// The response to another request, a notification or a blank line never ends a call.
pub proof fn law_others_are_skipped(id: nat, line: Seq<u8>)
    requires
        blank(line) || (parsed(line) matches Some(v) && match classify(v) {
            Frame::Response { id: other, .. } => other != id,
            Frame::Notification => true,
            Frame::Unknown => false,
        }),
    ensures
        heard(id, line) is Nothing,
{
}

/// A request carries its method and its id: whoever reads it as JSON finds them there.
pub proof fn law_request_reads_back(id: nat, method: Seq<char>, params: Option<Seq<char>>)
    requires
        id <= u64::MAX,
        params matches Some(p) ==> document(p) is Some,
    ensures
        document(request_text(id, method, params)) matches Some(v) && frame_id(v) == Some(id)
            && member_str(v, "method"@) == Some(method) && member(v, "params"@) == (match params {
            Some(p) => document(p),
            None => None,
        }),
{
    let m = seq![("jsonrpc"@, str_text("2.0"@)), ("id"@, dec(id)), ("method"@, str_text(method))]
        + params_members(params);
    let o0 = seq![
        ("jsonrpc"@, Val::Str("2.0"@)),
        ("id"@, Val::Num(dec(id))),
        ("method"@, Val::Str(method)),
    ];
    let o = match params {
        Some(p) => o0.push(("params"@, document(p)->0)),
        None => o0,
    };
    lemma_string("2.0"@);
    lemma_string(method);
    lemma_signed_number(id as int, 0, u64::MAX as int);
    lemma_number(dec(id));
    assert forall|i: int| 0 <= i < o.len() implies (#[trigger] m[i]).0 == o[i].0 && document(m[i].1)
        == Some(o[i].1) by {}
    lemma_object(m, o);
    reveal_strlit("jsonrpc");
    reveal_strlit("id");
    reveal_strlit("method");
    reveal_strlit("params");
    assert("jsonrpc"@.len() == 7 && "id"@.len() == 2 && "method"@.len() == 6 && "params"@.len()
        == 6);
    assert("method"@[0] == 'm' && "params"@[0] == 'p');
    reveal_with_fuel(member_from, 5);
}

/// Whether a value is a message with an id.
pub open spec fn has_id(v: Val, id: nat) -> bool {
    member(v, "id"@) matches Some(Val::Num(n)) && unsigned_value(n, u64::MAX as nat) == Some(id)
}

/// Whoever waits for the response to a request hears it, if and only if it has the id of the
/// request: its result, or its error with its code and its text.
pub proof fn law_response_is_heard(id: nat, other: nat, line: Seq<u8>, v: Val)
    requires
        !blank(line),
        parsed(line) == Some(v),
        has_id(v, other),
    ensures
        other == id && member(v, "error"@) is None && member(v, "result"@) is Some ==> heard(id, line)
            == Heard::Answer(v),
        other == id ==> (member(v, "error"@) matches Some(e) ==> (heard(id, line) matches Heard::Failed(
            Mishap::Server { code, message },
        ) && (member_str(e, "message"@) matches Some(m) ==> message == m) && (member(e, "code"@) matches Some(
            Val::Num(n),
        ) ==> (signed_value(n, i64::MIN as int, i64::MAX as int) matches Some(c) ==> code == c)))),
        other != id && (member(v, "error"@) is Some || member(v, "result"@) is Some) ==> heard(
            id,
            line,
        ) is Nothing,
        member(v, "error"@) is None && member(v, "result"@) is None ==> heard(id, line) is Failed,
{
}

/// A line that is no JSON text is an error, and a message without an id is skipped if it names a
/// method, and is an error otherwise.
pub proof fn law_other_lines(id: nat, line: Seq<u8>)
    requires
        exists|i: int|
            0 <= i < line.len() && !(#[trigger] line[i] == 0x20 || line[i] == 0x09 || line[i] == 0x0d),
    ensures
        parsed(line) is None ==> heard(id, line) is Failed,
        parsed(line) matches Some(v) ==> (member(v, "id"@) is None ==> (heard(id, line) is Nothing
            <==> member_str(v, "method"@) is Some) && (heard(id, line) is Failed <==> member_str(
            v,
            "method"@,
        ) is None)),
{
}

proof fn lemma_offers(a: Seq<Val>, n: nat)
    requires
        n <= a.len(),
    ensures
        offers_of(a, n) matches Ok(s) ==> s.len() == n && forall|i: int|
            0 <= i < n ==> offer_of(#[trigger] a[i]) == Ok::<Offer, Seq<char>>(s[i]),
        offers_of(a, n) is Ok <==> forall|i: int| 0 <= i < n ==> offer_of(#[trigger] a[i]) is Ok,
    decreases n,
{
    if n > 0 {
        lemma_offers(a, (n - 1) as nat);
    }
}

/// The catalog has every tool of the list, in their order: its name, its description, which may
/// be missing, and its schema. There is none if a tool lacks its name or its schema.
pub proof fn law_catalog_is_whole(v: Val, a: Seq<Val>)
    requires
        member(v, "tools"@) == Some(Val::Arr(a)),
    ensures
        catalog(v) matches Ok(s) ==> s.len() == a.len() && forall|i: int|
            0 <= i < a.len() ==> {
                &&& member_str(#[trigger] a[i], "name"@) == Some(s[i].name)
                &&& match member_str(a[i], "description"@) {
                    Some(d) => s[i].description == d,
                    None => s[i].description.len() == 0,
                }
                &&& member(a[i], "inputSchema"@) matches Some(x) && s[i].input_schema == text(x)
            },
        catalog(v) is Ok <==> forall|i: int|
            0 <= i < a.len() ==> member_str(#[trigger] a[i], "name"@) is Some && member(
                a[i],
                "inputSchema"@,
            ) is Some,
{
    lemma_offers(a, a.len());
    if let Ok(s) = catalog(v) {
        assert forall|i: int| 0 <= i < a.len() implies member_str(#[trigger] a[i], "name"@) == Some(
            s[i].name,
        ) && (match member_str(a[i], "description"@) {
            Some(d) => s[i].description == d,
            None => s[i].description.len() == 0,
        }) && (member(a[i], "inputSchema"@) matches Some(x) && s[i].input_schema == text(x)) by {
            assert(offer_of(a[i]) == Ok::<Offer, Seq<char>>(s[i]));
        }
    }
    if forall|i: int|
        0 <= i < a.len() ==> member_str(#[trigger] a[i], "name"@) is Some && member(
            a[i],
            "inputSchema"@,
        ) is Some {
        assert forall|i: int| 0 <= i < a.len() implies offer_of(#[trigger] a[i]) is Ok by {
            assert(member_str(a[i], "name"@) is Some);
        }
    }
}

/// The text of a result is that of all its text blocks, in their order, each on a line of its own;
/// other blocks are left out.
pub proof fn law_result_is_all_its_text(a: Seq<Val>, b: Val)
    ensures
        block_text(Seq::empty(), 0) == Seq::<char>::empty(),
        ({
            let before = block_text(a, a.len());
            let after = block_text(a.push(b), a.push(b).len());
            match member_str(b, "text"@) {
                Some(t) => if member_str(b, "type"@) != Some("text"@) {
                    after == before
                } else if before.len() == 0 {
                    after == t
                } else {
                    after == before + seq!['\n'] + t
                },
                None => after == before,
            }
        }),
{
    lemma_block_prefix(a, a.push(b), a.len());
    let before = block_text(a, a.len());
    assert(before.push('\n') =~= before + seq!['\n']);
}

proof fn lemma_block_prefix(a: Seq<Val>, b: Seq<Val>, n: nat)
    requires
        n <= a.len() <= b.len(),
        forall|i: int| 0 <= i < n ==> a[i] == b[i],
    ensures
        block_text(a, n) == block_text(b, n),
    decreases n,
{
    if n > 0 {
        lemma_block_prefix(a, b, (n - 1) as nat);
    }
}

/// A call ends with the text of the result in its response, as an error if the result says that
/// it is one.
pub proof fn law_call_ends_with_the_result(v: Val, r: Val, a: Seq<Val>)
    requires
        member(v, "result"@) == Some(r),
        member(r, "content"@) == Some(Val::Arr(a)),
    ensures
        member(r, "isError"@) == Some(Val::Bool(true)) ==> called(v) == Err::<Seq<char>, Mishap>(
            Mishap::Server { code: 0, message: block_text(a, a.len()) },
        ),
        member(r, "isError"@) != Some(Val::Bool(true)) ==> called(v) == Ok::<Seq<char>, Mishap>(
            block_text(a, a.len()),
        ),
{
}

/// A call names its tool and hands over its arguments; where none are given, an empty object.
pub proof fn law_call_reads_back(name: Seq<char>, args: Seq<char>)
    requires
        trim(args).len() == 0 || document(trim(args)) is Some,
    ensures
        document(call_params(name, args)) matches Some(v) && member_str(v, "name"@) == Some(name)
            && member(v, "arguments"@) == (if trim(args).len() == 0 {
            Some(Val::Obj(Seq::empty()))
        } else {
            document(trim(args))
        }),
{
    lemma_string(name);
    reveal_strlit("name");
    reveal_strlit("arguments");
    reveal_strlit("{}");
    assert("name"@.len() == 4 && "arguments"@.len() == 9);
    let none: Seq<(Seq<char>, Seq<char>)> = Seq::empty();
    lemma_object(none, Seq::empty());
    assert(raw_obj(none) == "{}"@) by {
        reveal(raw_obj);
        assert(raw_obj(none) =~= "{}"@);
    }
    let a = if trim(args).len() == 0 {
        "{}"@
    } else {
        trim(args)
    };
    let m = seq![("name"@, str_text(name)), ("arguments"@, a)];
    let o = seq![("name"@, Val::Str(name)), ("arguments"@, document(a)->0)];
    assert forall|i: int| 0 <= i < o.len() implies (#[trigger] m[i]).0 == o[i].0 && document(m[i].1)
        == Some(o[i].1) by {}
    lemma_object(m, o);
    reveal_with_fuel(member_from, 3);
}

/// The handshake: `initialize` is sent and its response received; then it is said that the client
/// is ready, the tools are asked for, and the response to that is the catalog. The next
/// request has the id behind those two.
pub proof fn law_handshake_in_order(e: Seq<Event>, v1: Val, r1: Val, v2: Val, r2: Val)
    requires
        e.len() == 5,
        e[0] is Sent,
        e[1] matches Event::Line(l) && !blank(l@) && parsed(l@) == Some(v1),
        has_id(v1, 1),
        member(v1, "error"@) is None,
        member(v1, "result"@) == Some(r1),
        member(r1, "protocolVersion"@) is Some,
        e[2] is Sent,
        e[3] is Sent,
        e[4] matches Event::Line(l) && !blank(l@) && parsed(l@) == Some(v2),
        has_id(v2, 2),
        member(v2, "error"@) is None,
        member(v2, "result"@) == Some(r2),
    ensures
        handshake(e, 0).1 == Next::Send(request_text(1, "initialize"@, Some(init_params()))),
        handshake(e, 1).1 == Next::Receive,
        handshake(e, 2).1 == Next::Send(notification_text("notifications/initialized"@)),
        handshake(e, 3).1 == Next::Send(request_text(2, "tools/list"@, None)),
        handshake(e, 4).1 == Next::Receive,
        match catalog(r2) {
            Ok(tools) => handshake(e, 5).1 == (Next::Ready { next_id: 3, tools }),
            Err(m) => handshake(e, 5).1 == Next::Failed(Mishap::Protocol(m)),
        },
{
    reveal_with_fuel(handshake, 6);
}

/// The text of an error tells its kind and what was said.
pub proof fn law_errors_tell_their_kind(m: Seq<char>, code: int)
    ensures
        mishap_text(Mishap::Transport(m)) == "transport: "@ + m,
        mishap_text(Mishap::Protocol(m)) == "protocol: "@ + m,
        mishap_text(Mishap::Server { code, message: m }) == "server error "@ + signed_dec(code) + ": "@
            + m,
{
}

/// That sending or receiving failed ends the handshake and every call; what is heard ends a call, and
/// nothing else does.
pub proof fn law_transport_fails_everything(stage: Stage, m: String, id: nat, line: Vec<u8>)
    ensures
        shake(stage, Event::Failed(m)) == (Stage::Over, Next::Failed(Mishap::Transport(m@))),
        call_event(id, Event::Failed(m)) == Some(
            Err::<Seq<char>, Mishap>(Mishap::Transport(m@)),
        ),
        call_event(id, Event::Sent) is None,
        match heard(id, line@) {
            Heard::Nothing => call_event(id, Event::Line(line)) is None,
            Heard::Failed(e) => call_event(id, Event::Line(line)) == Some(
                Err::<Seq<char>, Mishap>(e),
            ),
            Heard::Answer(v) => call_event(id, Event::Line(line)) == Some(called(v)),
        },
{
}

} // verus!
