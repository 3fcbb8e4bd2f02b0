//! Streaming client for the Anthropic Messages API: the request, and the events of the reply.
//! Sending and receiving is the caller's part.

use vstd::prelude::*;

use crate::http::{has_nul, holds_nul, Call, HttpCall};
use crate::json::{
    array_json, document, lemma_array, lemma_number, lemma_object, lemma_signed_number,
    lemma_string, lemma_true, member, member_from, member_str, object_json, parse, parsed, raw_arr,
    raw_members, raw_obj, str_json, str_text, text_at, text_in, Json, Val,
};
use crate::text::{dec, dec_string, maybe, text_eq, texts};
use crate::wire::sse::{data_from, frame_data, frames, partial, SseFramer};

verus! {

/// Speaks for one API key.
#[derive(Debug)]
pub struct Client {
    pub api_key: String,
}

#[derive(Debug)]
pub struct Request {
    pub model: String,
    pub max_tokens: u32,
    pub messages: Vec<Message>,
    pub system: Option<String>,
    pub tools: Vec<Tool>,
}

#[derive(Debug)]
pub struct Message {
    pub role: Role,
    pub content: String,
}

#[derive(Debug, Clone, Copy, PartialEq, Eq, Structural)]
pub enum Role {
    User,
    Assistant,
}

/// The schema is a JSON object, taken over as it stands.
#[derive(Debug)]
pub struct Tool {
    pub name: String,
    pub description: String,
    pub input_schema: String,
}

#[derive(Debug, PartialEq)]
pub enum Event {
    MessageStart { id: String, model: String },
    TextDelta(String),
    ToolUseStart { id: String, name: String },
    ToolUseInputDelta(String),
    ContentBlockStop,
    MessageDelta { stop_reason: Option<String> },
    MessageStop,
    Ping,
    Other(String),
}

#[derive(Debug)]
pub enum Error {
    Http(String),
    InvalidResponse(String),
    /// The text of an operating-system error.
    Io(String),
}

/// Mathematical form of an `Error`.
pub enum Failure {
    Http(Seq<char>),
    InvalidResponse(Seq<char>),
    Io(Seq<char>),
}

impl View for Error {
    type V = Failure;

    open spec fn view(&self) -> Failure {
        match *self {
            Error::Http(m) => Failure::Http(m@),
            Error::InvalidResponse(m) => Failure::InvalidResponse(m@),
            Error::Io(m) => Failure::Io(m@),
        }
    }
}

impl Error {
    /// The text that describes the error.
    pub fn message(&self) -> (res: String)
        ensures
            res@ == (match self@ {
                Failure::Http(m) => "http: "@ + m,
                Failure::InvalidResponse(m) => "invalid response: "@ + m,
                Failure::Io(m) => "io: "@ + m,
            }),
    {
        match self {
            Error::Http(m) => {
                let mut res = "http: ".to_owned();
                res.push_str(m.as_str());
                res
            },
            Error::InvalidResponse(m) => {
                let mut res = "invalid response: ".to_owned();
                res.push_str(m.as_str());
                res
            },
            Error::Io(m) => {
                let mut res = "io: ".to_owned();
                res.push_str(m.as_str());
                res
            },
        }
    }
}

// ---------------------------------------------------------------------------------
// The request
// ---------------------------------------------------------------------------------
pub open spec fn role_name(r: Role) -> Seq<char> {
    match r {
        Role::User => "user"@,
        Role::Assistant => "assistant"@,
    }
}

pub open spec fn message_text(m: Message) -> Seq<char> {
    raw_obj(seq![("role"@, str_text(role_name(m.role))), ("content"@, str_text(m.content@))])
}

pub open spec fn tool_text(t: Tool) -> Seq<char> {
    raw_obj(
        seq![
            ("name"@, str_text(t.name@)),
            ("description"@, str_text(t.description@)),
            ("input_schema"@, t.input_schema@),
        ],
    )
}

/// The system member, where there is a system prompt.
pub open spec fn system_members(r: Request) -> Seq<(Seq<char>, Seq<char>)> {
    match r.system {
        Some(s) => seq![("system"@, str_text(s@))],
        None => Seq::empty(),
    }
}

/// The tools member, where there are tools.
pub open spec fn tools_members(r: Request) -> Seq<(Seq<char>, Seq<char>)> {
    if r.tools@.len() > 0 {
        seq![("tools"@, raw_arr(Seq::new(r.tools@.len(), |i: int| tool_text(r.tools@[i]))))]
    } else {
        Seq::empty()
    }
}

/// The body of a request.
pub open spec fn request_text(r: Request) -> Seq<char> {
    raw_obj(
        seq![
            ("model"@, str_text(r.model@)),
            ("max_tokens"@, dec(r.max_tokens as nat)),
            ("stream"@, "true"@),
            (
                "messages"@,
                raw_arr(Seq::new(r.messages@.len(), |i: int| message_text(r.messages@[i]))),
            ),
        ] + system_members(r) + tools_members(r),
    )
}

fn serialize_message(m: &Message) -> (res: String)
    ensures
        res@ == message_text(*m),
{
    let role = match m.role {
        Role::User => "user",
        Role::Assistant => "assistant",
    };
    let mut o: Vec<(&str, String)> = Vec::new();
    o.push(("role", str_json(role)));
    o.push(("content", str_json(m.content.as_str())));
    proof {
        assert(raw_members(o@) =~= seq![
            ("role"@, str_text(role_name(m.role))),
            ("content"@, str_text(m.content@)),
        ]);
    }
    object_json(&o)
}

fn serialize_tool(t: &Tool) -> (res: String)
    ensures
        res@ == tool_text(*t),
{
    let mut o: Vec<(&str, String)> = Vec::new();
    o.push(("name", str_json(t.name.as_str())));
    o.push(("description", str_json(t.description.as_str())));
    o.push(("input_schema", t.input_schema.clone()));
    proof {
        assert(raw_members(o@) =~= seq![
            ("name"@, str_text(t.name@)),
            ("description"@, str_text(t.description@)),
            ("input_schema"@, t.input_schema@),
        ]);
    }
    object_json(&o)
}

/// The body of a request.
pub fn serialize_request(req: &Request) -> (res: String)
    ensures
        res@ == request_text(*req),
{
    let mut parts: Vec<String> = Vec::new();
    let mut i: usize = 0;
    while i < req.messages.len()
        invariant
            i <= req.messages@.len(),
            parts@.len() == i,
            forall|k: int| 0 <= k < i ==> (#[trigger] parts@[k])@ == message_text(req.messages@[k]),
        decreases req.messages.len() - i,
    {
        parts.push(serialize_message(&req.messages[i]));
        i += 1;
    }
    proof {
        assert(texts(parts@) =~= Seq::new(
            req.messages@.len(),
            |k: int| message_text(req.messages@[k]),
        ));
    }
    let mut o: Vec<(&str, String)> = Vec::new();
    o.push(("model", str_json(req.model.as_str())));
    o.push(("max_tokens", dec_string(req.max_tokens as u128)));
    o.push(("stream", "true".to_owned()));
    o.push(("messages", array_json(&parts)));
    let ghost head = raw_members(o@);
    proof {
        assert(head =~= seq![
            ("model"@, str_text(req.model@)),
            ("max_tokens"@, dec(req.max_tokens as nat)),
            ("stream"@, "true"@),
            (
                "messages"@,
                raw_arr(Seq::new(req.messages@.len(), |k: int| message_text(req.messages@[k]))),
            ),
        ]);
    }
    if let Some(sys) = &req.system {
        o.push(("system", str_json(sys.as_str())));
    }
    proof {
        assert(raw_members(o@) =~= head + system_members(*req));
    }
    if req.tools.len() > 0 {
        let mut tools: Vec<String> = Vec::new();
        let mut j: usize = 0;
        while j < req.tools.len()
            invariant
                j <= req.tools@.len(),
                tools@.len() == j,
                forall|k: int| 0 <= k < j ==> (#[trigger] tools@[k])@ == tool_text(req.tools@[k]),
            decreases req.tools.len() - j,
        {
            tools.push(serialize_tool(&req.tools[j]));
            j += 1;
        }
        proof {
            assert(texts(tools@) =~= Seq::new(req.tools@.len(), |k: int| tool_text(req.tools@[k])));
        }
        o.push(("tools", array_json(&tools)));
    }
    proof {
        assert(raw_members(o@) =~= head + system_members(*req) + tools_members(*req));
    }
    object_json(&o)
}

/// The call that a request leads to.
pub open spec fn request_call(key: Seq<char>, r: Request) -> Call {
    Call {
        post: true,
        url: "https://api.anthropic.com/v1/messages"@,
        headers: seq![
            "x-api-key: "@ + key,
            "anthropic-version: 2023-06-01"@,
            "content-type: application/json"@,
            "accept: text/event-stream"@,
        ],
        body: Some(request_text(r)),
    }
}

impl Client {
    pub fn new(api_key: String) -> (res: Self)
        ensures
            res.api_key == api_key,
    {
        Client { api_key }
    }

    /// The call to make for a request; what comes back goes to an `EventStream`.
    pub fn stream(&self, req: &Request) -> (res: Result<HttpCall, Error>)
        ensures
            match res {
                Ok(call) => !has_nul(self.api_key@) && call@ == request_call(self.api_key@, *req),
                Err(e) => has_nul(self.api_key@) && e@ == Failure::Http("api key contains NUL"@),
            },
    {
        if holds_nul(self.api_key.as_str()) {
            return Err(Error::Http("api key contains NUL".to_owned()));
        }
        let mut key = "x-api-key: ".to_owned();
        key.push_str(self.api_key.as_str());
        let mut headers: Vec<String> = Vec::new();
        headers.push(key);
        headers.push("anthropic-version: 2023-06-01".to_owned());
        headers.push("content-type: application/json".to_owned());
        headers.push("accept: text/event-stream".to_owned());
        let call = HttpCall {
            post: true,
            url: "https://api.anthropic.com/v1/messages".to_owned(),
            headers,
            body: Some(serialize_request(req)),
        };
        proof {
            assert(call@.headers =~= request_call(self.api_key@, *req).headers);
        }
        Ok(call)
    }
}

// ---------------------------------------------------------------------------------
// The reply
// ---------------------------------------------------------------------------------
/// A piece of a reply as it arrives.
#[derive(Debug)]
pub enum Chunk {
    Data(Vec<u8>),
    /// The reply is over.
    End,
    /// The transfer failed.
    Failed(Error),
}

/// What a look at a reply gives.
#[derive(Debug)]
pub enum Pull {
    /// The next event, or why it cannot be read.
    Event(Result<Event, Error>),
    /// Nothing more will come; the error with which the transfer failed, once.
    Ended(Option<Error>),
    /// Nothing yet; the next chunk has to arrive first.
    Wait,
}

/// A reply in progress.
#[derive(Debug)]
pub struct EventStream {
    pub framer: SseFramer,
    pub done: bool,
    pub terminal: Option<Error>,
}

impl EventStream {
    pub fn new() -> (res: Self)
        ensures
            res.framer@ == Seq::<u8>::empty(),
            !res.done,
            res.terminal is None,
    {
        EventStream { framer: SseFramer::new(), done: false, terminal: None }
    }

    /// Takes in the next chunk.
    pub fn chunk(&mut self, c: Chunk)
        ensures
            match c {
                Chunk::Data(b) => final(self).framer@ == old(self).framer@ + b@
                    && final(self).done == old(self).done && final(self).terminal == old(
                    self,
                ).terminal,
                Chunk::End => final(self).framer == old(self).framer && final(self).done
                    && final(self).terminal == old(self).terminal,
                Chunk::Failed(e) => final(self).framer == old(self).framer && final(self).done
                    && final(self).terminal == Some(e),
            },
    {
        match c {
            Chunk::Data(b) => self.framer.push(b.as_slice()),
            Chunk::End => {
                self.done = true;
            },
            Chunk::Failed(e) => {
                self.done = true;
                self.terminal = Some(e);
            },
        }
    }

    /// The next event if its frame is complete; otherwise the end if it has come. Events
    /// that arrived before the end still come out.
    pub fn try_next(&mut self) -> (res: Pull)
        ensures
            final(self).done == old(self).done,
            if frames(old(self).framer@).len() > 0 {
                &&& res matches Pull::Event(r) && reads(frames(old(self).framer@)[0], r)
                &&& frames(final(self).framer@) == frames(old(self).framer@).drop_first()
                &&& partial(final(self).framer@) == partial(old(self).framer@)
                &&& final(self).terminal == old(self).terminal
            } else {
                &&& final(self).framer == old(self).framer
                &&& if old(self).done {
                    res == Pull::Ended(old(self).terminal) && final(self).terminal is None
                } else {
                    res is Wait && final(self).terminal == old(self).terminal
                }
            },
    {
        let ghost before = frames(self.framer@);
        match self.framer.pop_frame() {
            Some(f) => {
                proof {
                    assert(before.drop_first() =~= frames(self.framer@));
                }
                Pull::Event(parse_frame(f.as_slice()))
            },
            None => {
                if self.done {
                    Pull::Ended(self.terminal.take())
                } else {
                    Pull::Wait
                }
            },
        }
    }
}

// ---------------------------------------------------------------------------------
// Events
// ---------------------------------------------------------------------------------
/// Mathematical form of an `Event`.
pub enum Sign {
    MessageStart { id: Seq<char>, model: Seq<char> },
    TextDelta(Seq<char>),
    ToolUseStart { id: Seq<char>, name: Seq<char> },
    ToolUseInputDelta(Seq<char>),
    ContentBlockStop,
    MessageDelta { stop_reason: Option<Seq<char>> },
    MessageStop,
    Ping,
    Other(Seq<char>),
}

impl View for Event {
    type V = Sign;

    open spec fn view(&self) -> Sign {
        match *self {
            Event::MessageStart { id, model } => Sign::MessageStart { id: id@, model: model@ },
            Event::TextDelta(s) => Sign::TextDelta(s@),
            Event::ToolUseStart { id, name } => Sign::ToolUseStart { id: id@, name: name@ },
            Event::ToolUseInputDelta(s) => Sign::ToolUseInputDelta(s@),
            Event::ContentBlockStop => Sign::ContentBlockStop,
            Event::MessageDelta { stop_reason } => Sign::MessageDelta {
                stop_reason: maybe(stop_reason),
            },
            Event::MessageStop => Sign::MessageStop,
            Event::Ping => Sign::Ping,
            Event::Other(t) => Sign::Other(t@),
        }
    }
}

/// The event that a value stands for, by its type. Of a block's start only that of a tool's
/// use is told apart, of a block's growth that of a text and of an input.
pub open spec fn event_of(v: Val) -> Sign {
    let t = text_at(Some(v), "type"@);
    let block = member(v, "content_block"@);
    let delta = member(v, "delta"@);
    if t == "message_start"@ {
        let m = member(v, "message"@);
        Sign::MessageStart { id: text_at(m, "id"@), model: text_at(m, "model"@) }
    } else if t == "content_block_start"@ && text_at(block, "type"@) == "tool_use"@ {
        Sign::ToolUseStart { id: text_at(block, "id"@), name: text_at(block, "name"@) }
    } else if t == "content_block_delta"@ && text_at(delta, "type"@) == "text_delta"@ {
        Sign::TextDelta(text_at(delta, "text"@))
    } else if t == "content_block_delta"@ && text_at(delta, "type"@) == "input_json_delta"@ {
        Sign::ToolUseInputDelta(text_at(delta, "partial_json"@))
    } else if t == "content_block_stop"@ {
        Sign::ContentBlockStop
    } else if t == "message_delta"@ {
        Sign::MessageDelta {
            stop_reason: match delta {
                Some(d) => member_str(d, "stop_reason"@),
                None => None,
            },
        }
    } else if t == "message_stop"@ {
        Sign::MessageStop
    } else if t == "ping"@ {
        Sign::Ping
    } else {
        Sign::Other(t)
    }
}

fn read_event(v: &Json) -> (res: Event)
    ensures
        res@ == event_of(v@),
{
    let t = text_in(Some(v), "type");
    let block = v.get("content_block");
    let delta = v.get("delta");
    if text_eq(t.as_str(), "message_start") {
        let m = v.get("message");
        return Event::MessageStart { id: text_in(m, "id"), model: text_in(m, "model") };
    }
    if text_eq(t.as_str(), "content_block_start") && text_eq(
        text_in(block, "type").as_str(),
        "tool_use",
    ) {
        return Event::ToolUseStart { id: text_in(block, "id"), name: text_in(block, "name") };
    }
    if text_eq(t.as_str(), "content_block_delta") {
        let kind = text_in(delta, "type");
        if text_eq(kind.as_str(), "text_delta") {
            return Event::TextDelta(text_in(delta, "text"));
        }
        if text_eq(kind.as_str(), "input_json_delta") {
            return Event::ToolUseInputDelta(text_in(delta, "partial_json"));
        }
    }
    if text_eq(t.as_str(), "content_block_stop") {
        return Event::ContentBlockStop;
    }
    if text_eq(t.as_str(), "message_delta") {
        let stop_reason = match delta {
            Some(d) => match d.get_str("stop_reason") {
                Some(s) => Some(s.to_owned()),
                None => None,
            },
            None => None,
        };
        return Event::MessageDelta { stop_reason };
    }
    if text_eq(t.as_str(), "message_stop") {
        return Event::MessageStop;
    }
    if text_eq(t.as_str(), "ping") {
        return Event::Ping;
    }
    Event::Other(t)
}

/// Whether a frame is read to an event, or to the error that it calls for.
pub open spec fn reads(frame: Seq<u8>, r: Result<Event, Error>) -> bool {
    match data_from(frame, 0, None) {
        None => r matches Err(e) && e@ == Failure::InvalidResponse("frame without data"@),
        Some(d) => match parsed(d) {
            Some(v) => r matches Ok(ev) && ev@ == event_of(v),
            None => r matches Err(e) && e@ == Failure::InvalidResponse("invalid JSON"@),
        },
    }
}

/// The event in a frame.
pub fn parse_frame(frame: &[u8]) -> (res: Result<Event, Error>)
    ensures
        reads(frame@, res),
{
    let data = match frame_data(frame) {
        Some(d) => d,
        None => {
            return Err(Error::InvalidResponse("frame without data".to_owned()));
        },
    };
    match parse(data.as_slice()) {
        Ok(v) => Ok(read_event(&v)),
        Err(_) => Err(Error::InvalidResponse("invalid JSON".to_owned())),
    }
}

// ---------------------------------------------------------------------------------
// Laws
// ---------------------------------------------------------------------------------
/// What a message of a request reads as.
spec fn message_val(m: Message) -> Val {
    Val::Obj(
        seq![
            ("role"@, Val::Str(role_name(m.role))),
            ("content"@, Val::Str(m.content@)),
        ],
    )
}

/// What a tool of a request reads as.
spec fn tool_val(t: Tool) -> Val {
    Val::Obj(
        seq![
            ("name"@, Val::Str(t.name@)),
            ("description"@, Val::Str(t.description@)),
            ("input_schema"@, document(t.input_schema@)->0),
        ],
    )
}

proof fn lemma_message(m: Message)
    ensures
        document(message_text(m)) == Some(message_val(m)),
{
    lemma_string(role_name(m.role));
    lemma_string(m.content@);
    let t = seq![("role"@, str_text(role_name(m.role))), ("content"@, str_text(m.content@))];
    lemma_object(t, message_val(m)->Obj_0);
}

proof fn lemma_tool(t: Tool)
    requires
        document(t.input_schema@) is Some,
    ensures
        document(tool_text(t)) == Some(tool_val(t)),
{
    lemma_string(t.name@);
    lemma_string(t.description@);
    let m = seq![
        ("name"@, str_text(t.name@)),
        ("description"@, str_text(t.description@)),
        ("input_schema"@, t.input_schema@),
    ];
    lemma_object(m, tool_val(t)->Obj_0);
}

/// The body of a request is a JSON text that tells the model, the number of tokens, the system
/// prompt if there is one, every message in its place with its role and its text, and every
/// tool in its place with its name, its description and its schema.
pub proof fn law_request_reads_back(r: Request)
    requires
        forall|i: int|
            0 <= i < r.tools@.len() ==> document((#[trigger] r.tools@[i]).input_schema@) is Some,
    ensures
        document(request_text(r)) matches Some(v) && {
            &&& member_str(v, "model"@) == Some(r.model@)
            &&& member(v, "max_tokens"@) == Some(Val::Num(dec(r.max_tokens as nat)))
            &&& member(v, "stream"@) == Some(Val::Bool(true))
            &&& member_str(v, "system"@) == maybe(r.system)
            &&& member(v, "messages"@) matches Some(Val::Arr(a)) && {
                &&& a.len() == r.messages@.len()
                &&& forall|i: int|
                    0 <= i < a.len() ==> {
                        &&& member_str(#[trigger] a[i], "content"@) == Some(
                            r.messages@[i].content@,
                        )
                        &&& r.messages@[i].role == Role::User ==> member_str(a[i], "role"@)
                            == Some("user"@)
                        &&& r.messages@[i].role == Role::Assistant ==> member_str(
                            a[i],
                            "role"@,
                        ) == Some("assistant"@)
                    }
            }
            &&& r.tools@.len() == 0 ==> member(v, "tools"@) is None
            &&& r.tools@.len() > 0 ==> (member(v, "tools"@) matches Some(Val::Arr(a)) && {
                &&& a.len() == r.tools@.len()
                &&& forall|i: int|
                    0 <= i < a.len() ==> {
                        &&& member_str(#[trigger] a[i], "name"@) == Some(r.tools@[i].name@)
                        &&& member_str(a[i], "description"@) == Some(r.tools@[i].description@)
                        &&& member(a[i], "input_schema"@) == document(
                            r.tools@[i].input_schema@,
                        )
                    }
            })
        },
{
    let mt = Seq::new(r.messages@.len(), |i: int| message_text(r.messages@[i]));
    let mv = Seq::new(r.messages@.len(), |i: int| message_val(r.messages@[i]));
    assert forall|i: int| 0 <= i < mv.len() implies document(#[trigger] mt[i]) == Some(mv[i]) by {
        lemma_message(r.messages@[i]);
    }
    lemma_array(mt, mv);
    let tt = Seq::new(r.tools@.len(), |i: int| tool_text(r.tools@[i]));
    let tv = Seq::new(r.tools@.len(), |i: int| tool_val(r.tools@[i]));
    assert forall|i: int| 0 <= i < tv.len() implies document(#[trigger] tt[i]) == Some(tv[i]) by {
        assert(document(r.tools@[i].input_schema@) is Some);
        lemma_tool(r.tools@[i]);
    }
    lemma_array(tt, tv);
    lemma_string(r.model@);
    lemma_signed_number(r.max_tokens as int, 0, u32::MAX as int);
    lemma_number(dec(r.max_tokens as nat));
    lemma_true();
    let head = seq![
        ("model"@, Val::Str(r.model@)),
        ("max_tokens"@, Val::Num(dec(r.max_tokens as nat))),
        ("stream"@, Val::Bool(true)),
        ("messages"@, Val::Arr(mv)),
    ];
    let sys: Seq<(Seq<char>, Val)> = match r.system {
        Some(s) => seq![("system"@, Val::Str(s@))],
        None => Seq::empty(),
    };
    let tools: Seq<(Seq<char>, Val)> = if r.tools@.len() > 0 {
        seq![("tools"@, Val::Arr(tv))]
    } else {
        Seq::empty()
    };
    if let Some(s) = r.system {
        lemma_string(s@);
    }
    let o = head + sys + tools;
    let m = seq![
        ("model"@, str_text(r.model@)),
        ("max_tokens"@, dec(r.max_tokens as nat)),
        ("stream"@, "true"@),
        ("messages"@, raw_arr(mt)),
    ] + system_members(r) + tools_members(r);
    assert forall|i: int| 0 <= i < o.len() implies (#[trigger] m[i]).0 == o[i].0 && document(m[i].1)
        == Some(o[i].1) by {}
    lemma_object(m, o);
    reveal_strlit("model");
    reveal_strlit("max_tokens");
    reveal_strlit("stream");
    reveal_strlit("messages");
    reveal_strlit("system");
    reveal_strlit("tools");
    reveal_strlit("role");
    reveal_strlit("content");
    reveal_strlit("name");
    reveal_strlit("description");
    reveal_strlit("input_schema");
    assert("model"@.len() == 5 && "max_tokens"@.len() == 10 && "stream"@.len() == 6
        && "messages"@.len() == 8 && "system"@.len() == 6 && "tools"@.len() == 5 && "role"@.len()
        == 4 && "content"@.len() == 7 && "name"@.len() == 4 && "description"@.len() == 11
        && "input_schema"@.len() == 12);
    assert("model"@[0] == 'm' && "tools"@[0] == 't' && "stream"@[1] == 't' && "system"@[1] == 'y');
    reveal_with_fuel(member_from, 7);
    assert forall|i: int| 0 <= i < mv.len() implies member_str(#[trigger] mv[i], "content"@)
        == Some(r.messages@[i].content@) && member_str(mv[i], "role"@) == Some(
        role_name(r.messages@[i].role),
    ) by {}
    assert forall|i: int| 0 <= i < tv.len() implies member_str(#[trigger] tv[i], "name"@) == Some(
        r.tools@[i].name@,
    ) && member_str(tv[i], "description"@) == Some(r.tools@[i].description@) && member(
        tv[i],
        "input_schema"@,
    ) == document(r.tools@[i].input_schema@) by {
        assert(document(r.tools@[i].input_schema@) is Some);
    }
}

/// A request is posted to the provider, with the key, and its body is the request.
pub proof fn law_request_is_posted(key: Seq<char>, r: Request)
    ensures
        request_call(key, r).post,
        request_call(key, r).url == "https://api.anthropic.com/v1/messages"@,
        request_call(key, r).body == Some(request_text(r)),
        request_call(key, r).headers =~= seq![
            "x-api-key: "@ + key,
            "anthropic-version: 2023-06-01"@,
            "content-type: application/json"@,
            "accept: text/event-stream"@,
        ],
{
}

proof fn lemma_types()
    ensures
        "message_start"@.len() == 13,
        "content_block_start"@.len() == 19,
        "content_block_delta"@.len() == 19,
        "content_block_start"@[14] == 's',
        "content_block_delta"@[14] == 'd',
        "content_block_stop"@.len() == 18,
        "message_delta"@.len() == 13,
        "message_start"@[8] == 's',
        "message_delta"@[8] == 'd',
        "message_stop"@.len() == 12,
        "ping"@.len() == 4,
        "text_delta"@.len() == 10,
        "input_json_delta"@.len() == 16,
{
    reveal_strlit("message_start");
    reveal_strlit("content_block_start");
    reveal_strlit("content_block_delta");
    reveal_strlit("content_block_stop");
    reveal_strlit("message_delta");
    reveal_strlit("message_stop");
    reveal_strlit("ping");
    reveal_strlit("text_delta");
    reveal_strlit("input_json_delta");
}

/// An event is told by its type: text that grows, the beginning of a use of a tool with its id
/// and its name, input that grows, the end of a block, why the model stopped, and the beginning
/// and the end of a message.
pub proof fn law_events_by_their_type(v: Val, d: Val, x: Seq<char>, id: Seq<char>, name: Seq<char>)
    ensures
        member_str(v, "type"@) == Some("content_block_delta"@) && member(v, "delta"@) == Some(d)
            && member_str(d, "type"@) == Some("text_delta"@) && member_str(d, "text"@) == Some(x)
            ==> event_of(v) == Sign::TextDelta(x),
        member_str(v, "type"@) == Some("content_block_delta"@) && member(v, "delta"@) == Some(d)
            && member_str(d, "type"@) == Some("input_json_delta"@) && member_str(d, "partial_json"@)
            == Some(x) ==> event_of(v) == Sign::ToolUseInputDelta(x),
        member_str(v, "type"@) == Some("content_block_start"@) && member(v, "content_block"@) == Some(
            d,
        ) && member_str(d, "type"@) == Some("tool_use"@) && member_str(d, "id"@) == Some(id)
            && member_str(d, "name"@) == Some(name) ==> event_of(v) == (Sign::ToolUseStart {
            id,
            name,
        }),
        member_str(v, "type"@) == Some("content_block_stop"@) ==> event_of(v)
            == Sign::ContentBlockStop,
        member_str(v, "type"@) == Some("message_delta"@) && member(v, "delta"@) == Some(d)
            ==> event_of(v) == (Sign::MessageDelta { stop_reason: member_str(d, "stop_reason"@) }),
        member_str(v, "type"@) == Some("message_start"@) && member(v, "message"@) == Some(d)
            && member_str(d, "id"@) == Some(id) && member_str(d, "model"@) == Some(name) ==> event_of(
            v,
        ) == (Sign::MessageStart { id, model: name }),
        member_str(v, "type"@) == Some("message_stop"@) ==> event_of(v) == Sign::MessageStop,
        member_str(v, "type"@) == Some("ping"@) ==> event_of(v) == Sign::Ping,
{
    lemma_types();
}

/// A frame is read as the event in its data; one without data, or whose data is no JSON, is an
/// error.
pub proof fn law_frame_is_read(frame: Seq<u8>, r: Result<Event, Error>)
    requires
        reads(frame, r),
    ensures
        match data_from(frame, 0, None) {
            Some(d) => match parsed(d) {
                Some(v) => r matches Ok(ev) && ev@ == event_of(v),
                None => r is Err,
            },
            None => r is Err,
        },
{
}

/// Any other event is told by its type alone: the start of a block that is no use of a tool, growth
/// of another kind, and types that are not known.
pub proof fn law_other_events(v: Val, t: Seq<char>)
    requires
        member_str(v, "type"@) == Some(t),
    ensures
        t == "content_block_start"@ && text_at(member(v, "content_block"@), "type"@) != "tool_use"@
            ==> event_of(v) == Sign::Other(t),
        t == "content_block_delta"@ && text_at(member(v, "delta"@), "type"@) != "text_delta"@ && text_at(
            member(v, "delta"@),
            "type"@,
        ) != "input_json_delta"@ ==> event_of(v) == Sign::Other(t),
        t != "message_start"@ && t != "content_block_start"@ && t != "content_block_delta"@ && t
            != "content_block_stop"@ && t != "message_delta"@ && t != "message_stop"@ && t != "ping"@
            ==> event_of(v) == Sign::Other(t),
{
    lemma_types();
}

} // verus!
