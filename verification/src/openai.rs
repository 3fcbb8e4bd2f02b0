//! Streaming client for endpoints that speak the OpenAI chat-completions format: the
//! request, and the events of the reply. Sending and receiving is the caller's part.

use vstd::prelude::*;
use vstd::utf8::*;

use crate::http::{has_nul, holds_nul, join_url, strip_slashes, Call, HttpCall};
use crate::json::{
    array_json, document, lemma_array, lemma_null, lemma_number, lemma_object,
    lemma_signed_number, lemma_string, lemma_true, maybe_val, member, member_from, member_str,
    object_json, parse, parsed, raw_arr, raw_members, raw_obj, str_json, str_text, text_at, text_in,
    vals_of, Json, Val,
};
use crate::text::{
    bytes_eq, chars_of, dec, dec_string, is_empty, maybe, starts_with, text_eq, text_of, texts,
};
use crate::wire::sse::{data_from, frame_data, frames, partial, SseFramer};

verus! {

/// Speaks for one API key to one address.
#[derive(Debug)]
pub struct Client {
    pub api_key: String,
    pub base_url: String,
}

#[derive(Debug)]
pub struct Request {
    pub model: String,
    /// Left out of the request where it is 0.
    pub max_tokens: u32,
    pub messages: Vec<Message>,
    /// Becomes a leading message with the role `system`.
    pub system: Option<String>,
    pub tools: Vec<Tool>,
}

#[derive(Debug)]
pub struct Message {
    pub role: Role,
    pub content: Vec<ContentBlock>,
}

/// The input of a tool use is a JSON text; it is sent as a string.
#[derive(Debug)]
pub enum ContentBlock {
    Text(String),
    ToolUse { id: String, name: String, input: String },
    ToolResult { tool_use_id: String, content: String },
}

#[derive(Debug, Clone, Copy, PartialEq, Eq, Structural)]
pub enum Role {
    User,
    Assistant,
    /// The role of messages with tool results. A user message that holds nothing but tool
    /// results is sent under it too.
    Tool,
}

#[derive(Debug, PartialEq)]
pub enum Event {
    TextDelta(String),
    ToolUseStart { id: String, name: String },
    ToolUseInputDelta(String),
    ContentBlockStop,
    Stop { reason: Option<String> },
    Other(String),
}

/// The schema is a JSON text, taken over as it stands.
#[derive(Debug)]
pub struct Tool {
    pub name: String,
    pub description: String,
    pub input_schema: String,
}

#[derive(Debug)]
pub enum Error {
    Http(String),
    InvalidResponse(String),
    /// The text of an operating-system error.
    Io(String),
}

/// Mathematical form of an `Error`.
pub enum Failure {
    Http(Seq<char>),
    InvalidResponse(Seq<char>),
    Io(Seq<char>),
}

impl View for Error {
    type V = Failure;

    open spec fn view(&self) -> Failure {
        match *self {
            Error::Http(m) => Failure::Http(m@),
            Error::InvalidResponse(m) => Failure::InvalidResponse(m@),
            Error::Io(m) => Failure::Io(m@),
        }
    }
}

impl Error {
    /// The text that describes the error.
    pub fn message(&self) -> (res: String)
        ensures
            res@ == (match self@ {
                Failure::Http(m) => "http: "@ + m,
                Failure::InvalidResponse(m) => "invalid response: "@ + m,
                Failure::Io(m) => "io: "@ + m,
            }),
    {
        match self {
            Error::Http(m) => {
                let mut res = "http: ".to_owned();
                res.push_str(m.as_str());
                res
            },
            Error::InvalidResponse(m) => {
                let mut res = "invalid response: ".to_owned();
                res.push_str(m.as_str());
                res
            },
            Error::Io(m) => {
                let mut res = "io: ".to_owned();
                res.push_str(m.as_str());
                res
            },
        }
    }
}

impl Message {
    fn of_text(role: Role, s: &str) -> (res: Self)
        ensures
            res.role == role,
            res.content@.len() == 1,
            res.content@[0] matches ContentBlock::Text(t) && t@ == s@,
    {
        let mut content: Vec<ContentBlock> = Vec::new();
        content.push(ContentBlock::Text(s.to_owned()));
        Message { role, content }
    }

    /// What a user says.
    pub fn user_text(s: &str) -> (res: Self)
        ensures
            res.role == Role::User,
            res.content@.len() == 1,
            res.content@[0] matches ContentBlock::Text(t) && t@ == s@,
    {
        Self::of_text(Role::User, s)
    }

    /// What the model says.
    pub fn assistant_text(s: &str) -> (res: Self)
        ensures
            res.role == Role::Assistant,
            res.content@.len() == 1,
            res.content@[0] matches ContentBlock::Text(t) && t@ == s@,
    {
        Self::of_text(Role::Assistant, s)
    }
}

// ---------------------------------------------------------------------------------
// The request
// ---------------------------------------------------------------------------------
pub open spec fn role_name(r: Role) -> Seq<char> {
    match r {
        Role::User => "user"@,
        Role::Assistant => "assistant"@,
        Role::Tool => "tool"@,
    }
}

/// The texts among the first `n` blocks.
pub open spec fn text_blocks(c: Seq<ContentBlock>, n: nat) -> Seq<Seq<char>>
    decreases n,
{
    if n == 0 {
        Seq::empty()
    } else {
        let before = text_blocks(c, (n - 1) as nat);
        match c[n - 1] {
            ContentBlock::Text(t) => before.push(t@),
            _ => before,
        }
    }
}

/// A tool call as it is sent.
pub open spec fn call_text(id: Seq<char>, name: Seq<char>, input: Seq<char>) -> Seq<char> {
    raw_obj(
        seq![
            ("id"@, str_text(id)),
            ("type"@, str_text("function"@)),
            (
                "function"@,
                raw_obj(seq![("name"@, str_text(name)), ("arguments"@, str_text(input))]),
            ),
        ],
    )
}

/// The tool calls among the first `n` blocks.
pub open spec fn call_blocks(c: Seq<ContentBlock>, n: nat) -> Seq<Seq<char>>
    decreases n,
{
    if n == 0 {
        Seq::empty()
    } else {
        let before = call_blocks(c, (n - 1) as nat);
        match c[n - 1] {
            ContentBlock::ToolUse { id, name, input } => before.push(
                call_text(id@, name@, input@),
            ),
            _ => before,
        }
    }
}

/// A tool result as it is sent: a message of its own.
pub open spec fn result_text(b: ContentBlock) -> Seq<char> {
    raw_obj(
        seq![
            ("role"@, str_text("tool"@)),
            ("tool_call_id"@, str_text(b->tool_use_id@)),
            ("content"@, str_text(b->content@)),
        ],
    )
}

pub open spec fn part_text(t: Seq<char>) -> Seq<char> {
    raw_obj(seq![("type"@, str_text("text"@)), ("text"@, str_text(t))])
}

/// The texts of a message as they are sent: null, one string, or an array of parts.
pub open spec fn content_text(t: Seq<Seq<char>>) -> Seq<char> {
    if t.len() == 0 {
        "null"@
    } else if t.len() == 1 {
        str_text(t[0])
    } else {
        raw_arr(Seq::new(t.len(), |i: int| part_text(t[i])))
    }
}

/// Whether a message holds tool results and nothing else, and is not the model's.
pub open spec fn only_results(m: Message) -> bool {
    &&& m.role != Role::Assistant
    &&& m.content@.len() > 0
    &&& forall|i: int| 0 <= i < m.content@.len() ==> (#[trigger] m.content@[i]) is ToolResult
}

/// The tool calls member, where there are calls.
pub open spec fn calls_members(c: Seq<ContentBlock>) -> Seq<(Seq<char>, Seq<char>)> {
    let calls = call_blocks(c, c.len());
    if calls.len() > 0 {
        seq![("tool_calls"@, raw_arr(calls))]
    } else {
        Seq::empty()
    }
}

/// What is sent for a message: one message for each of its tool results where it holds
/// nothing else, otherwise one for its texts and tool calls.
pub open spec fn wire_messages(m: Message) -> Seq<Seq<char>> {
    if only_results(m) {
        Seq::new(m.content@.len(), |i: int| result_text(m.content@[i]))
    } else {
        seq![
            raw_obj(
                seq![
                    ("role"@, str_text(role_name(m.role))),
                    ("content"@, content_text(text_blocks(m.content@, m.content@.len()))),
                ] + calls_members(m.content@),
            ),
        ]
    }
}

/// What is sent for the first `n` messages.
pub open spec fn all_messages(m: Seq<Message>, n: nat) -> Seq<Seq<char>>
    decreases n,
{
    if n == 0 {
        Seq::empty()
    } else {
        all_messages(m, (n - 1) as nat) + wire_messages(m[n - 1])
    }
}

pub open spec fn system_message(s: Option<String>) -> Seq<Seq<char>> {
    match s {
        Some(sys) => seq![
            raw_obj(seq![("role"@, str_text("system"@)), ("content"@, str_text(sys@))]),
        ],
        None => Seq::empty(),
    }
}

pub open spec fn tool_text(t: Tool) -> Seq<char> {
    raw_obj(
        seq![
            ("type"@, str_text("function"@)),
            (
                "function"@,
                raw_obj(
                    seq![
                        ("name"@, str_text(t.name@)),
                        ("description"@, str_text(t.description@)),
                        ("parameters"@, t.input_schema@),
                    ],
                ),
            ),
        ],
    )
}

/// The member for the number of tokens, where it is not 0.
pub open spec fn tokens_members(n: u32) -> Seq<(Seq<char>, Seq<char>)> {
    if n > 0 {
        seq![("max_tokens"@, dec(n as nat))]
    } else {
        Seq::empty()
    }
}

/// The tools member, where there are tools.
pub open spec fn tools_members(t: Seq<Tool>) -> Seq<(Seq<char>, Seq<char>)> {
    if t.len() > 0 {
        seq![("tools"@, raw_arr(Seq::new(t.len(), |i: int| tool_text(t[i]))))]
    } else {
        Seq::empty()
    }
}

/// The body of a request.
pub open spec fn request_text(r: Request) -> Seq<char> {
    raw_obj(
        seq![("model"@, str_text(r.model@)), ("stream"@, "true"@)] + tokens_members(r.max_tokens)
            + seq![
            (
                "messages"@,
                raw_arr(system_message(r.system) + all_messages(r.messages@, r.messages@.len())),
            ),
        ] + tools_members(r.tools@),
    )
}

fn write_call(id: &str, name: &str, input: &str) -> (res: String)
    ensures
        res@ == call_text(id@, name@, input@),
{
    let mut f: Vec<(&str, String)> = Vec::new();
    f.push(("name", str_json(name)));
    f.push(("arguments", str_json(input)));
    proof {
        assert(raw_members(f@) =~= seq![("name"@, str_text(name@)), ("arguments"@, str_text(input@))]);
    }
    let mut o: Vec<(&str, String)> = Vec::new();
    o.push(("id", str_json(id)));
    o.push(("type", str_json("function")));
    o.push(("function", object_json(&f)));
    proof {
        assert(raw_members(o@) =~= seq![
            ("id"@, str_text(id@)),
            ("type"@, str_text("function"@)),
            ("function"@, raw_obj(raw_members(f@))),
        ]);
    }
    object_json(&o)
}

fn write_result(tool_use_id: &str, content: &str) -> (res: String)
    ensures
        res@ == raw_obj(
            seq![
                ("role"@, str_text("tool"@)),
                ("tool_call_id"@, str_text(tool_use_id@)),
                ("content"@, str_text(content@)),
            ],
        ),
{
    let mut o: Vec<(&str, String)> = Vec::new();
    o.push(("role", str_json("tool")));
    o.push(("tool_call_id", str_json(tool_use_id)));
    o.push(("content", str_json(content)));
    proof {
        assert(raw_members(o@) =~= seq![
            ("role"@, str_text("tool"@)),
            ("tool_call_id"@, str_text(tool_use_id@)),
            ("content"@, str_text(content@)),
        ]);
    }
    object_json(&o)
}

fn write_part(t: &str) -> (res: String)
    ensures
        res@ == part_text(t@),
{
    let mut o: Vec<(&str, String)> = Vec::new();
    o.push(("type", str_json("text")));
    o.push(("text", str_json(t)));
    proof {
        assert(raw_members(o@) =~= seq![("type"@, str_text("text"@)), ("text"@, str_text(t@))]);
    }
    object_json(&o)
}

fn write_content(t: &Vec<String>) -> (res: String)
    ensures
        res@ == content_text(texts(t@)),
{
    if t.len() == 0 {
        "null".to_owned()
    } else if t.len() == 1 {
        str_json(t[0].as_str())
    } else {
        let mut parts: Vec<String> = Vec::new();
        let mut i: usize = 0;
        while i < t.len()
            invariant
                i <= t@.len(),
                parts@.len() == i,
                forall|k: int| 0 <= k < i ==> (#[trigger] parts@[k])@ == part_text(t@[k]@),
            decreases t.len() - i,
        {
            parts.push(write_part(t[i].as_str()));
            i += 1;
        }
        proof {
            assert(texts(parts@) =~= Seq::new(t@.len(), |k: int| part_text(texts(t@)[k])));
        }
        array_json(&parts)
    }
}

fn holds_only_results(m: &Message) -> (res: bool)
    ensures
        res == only_results(*m),
{
    if m.role == Role::Assistant || m.content.len() == 0 {
        return false;
    }
    let mut i: usize = 0;
    while i < m.content.len()
        invariant
            i <= m.content@.len(),
            forall|k: int| 0 <= k < i ==> (#[trigger] m.content@[k]) is ToolResult,
        decreases m.content.len() - i,
    {
        if !matches!(m.content[i], ContentBlock::ToolResult { .. }) {
            return false;
        }
        i += 1;
    }
    true
}

/// Appends what is sent for a message.
fn write_message(out: &mut Vec<String>, m: &Message)
    ensures
        texts(final(out)@) == texts(old(out)@) + wire_messages(*m),
{
    let ghost start = texts(out@);
    if holds_only_results(m) {
        let mut i: usize = 0;
        while i < m.content.len()
            invariant
                i <= m.content@.len(),
                only_results(*m),
                texts(out@) =~= start + wire_messages(*m).take(i as int),
            decreases m.content.len() - i,
        {
            let ghost before = texts(out@);
            proof {
                assert(m.content@[i as int] is ToolResult);
            }
            if let ContentBlock::ToolResult { tool_use_id, content } = &m.content[i] {
                out.push(write_result(tool_use_id.as_str(), content.as_str()));
            }
            proof {
                assert(texts(out@) =~= before.push(result_text(m.content@[i as int])));
                assert(wire_messages(*m)[i as int] == result_text(m.content@[i as int]));
            }
            i += 1;
        }
        proof {
            assert(wire_messages(*m).take(i as int) =~= wire_messages(*m));
        }
        return;
    }
    let mut said: Vec<String> = Vec::new();
    let mut calls: Vec<String> = Vec::new();
    let mut i: usize = 0;
    proof {
        assert(texts(said@) =~= text_blocks(m.content@, 0));
        assert(texts(calls@) =~= call_blocks(m.content@, 0));
    }
    while i < m.content.len()
        invariant
            i <= m.content@.len(),
            texts(said@) == text_blocks(m.content@, i as nat),
            texts(calls@) == call_blocks(m.content@, i as nat),
        decreases m.content.len() - i,
    {
        let ghost s0 = said@;
        let ghost c0 = calls@;
        match &m.content[i] {
            ContentBlock::Text(t) => {
                said.push(t.clone());
                proof {
                    assert(texts(said@) =~= texts(s0).push(t@));
                }
            },
            ContentBlock::ToolUse { id, name, input } => {
                calls.push(write_call(id.as_str(), name.as_str(), input.as_str()));
                proof {
                    assert(texts(calls@) =~= texts(c0).push(call_text(id@, name@, input@)));
                }
            },
            ContentBlock::ToolResult { .. } => {},
        }
        i += 1;
    }
    let role = match m.role {
        Role::User => "user",
        Role::Assistant => "assistant",
        Role::Tool => "tool",
    };
    let mut o: Vec<(&str, String)> = Vec::new();
    o.push(("role", str_json(role)));
    o.push(("content", write_content(&said)));
    let ghost head = raw_members(o@);
    proof {
        assert(head =~= seq![
            ("role"@, str_text(role_name(m.role))),
            ("content"@, content_text(text_blocks(m.content@, m.content@.len()))),
        ]);
    }
    if calls.len() > 0 {
        o.push(("tool_calls", array_json(&calls)));
    }
    proof {
        assert(raw_members(o@) =~= head + calls_members(m.content@));
    }
    out.push(object_json(&o));
    proof {
        assert(texts(out@) =~= start + wire_messages(*m));
    }
}

fn push_system(sys: &str) -> (res: String)
    ensures
        res@ == raw_obj(seq![("role"@, str_text("system"@)), ("content"@, str_text(sys@))]),
{
    let mut o: Vec<(&str, String)> = Vec::new();
    o.push(("role", str_json("system")));
    o.push(("content", str_json(sys)));
    proof {
        assert(raw_members(o@) =~= seq![
            ("role"@, str_text("system"@)),
            ("content"@, str_text(sys@)),
        ]);
    }
    object_json(&o)
}

fn write_tool(t: &Tool) -> (res: String)
    ensures
        res@ == tool_text(*t),
{
    let mut f: Vec<(&str, String)> = Vec::new();
    f.push(("name", str_json(t.name.as_str())));
    f.push(("description", str_json(t.description.as_str())));
    f.push(("parameters", t.input_schema.clone()));
    proof {
        assert(raw_members(f@) =~= seq![
            ("name"@, str_text(t.name@)),
            ("description"@, str_text(t.description@)),
            ("parameters"@, t.input_schema@),
        ]);
    }
    let mut o: Vec<(&str, String)> = Vec::new();
    o.push(("type", str_json("function")));
    o.push(("function", object_json(&f)));
    proof {
        assert(raw_members(o@) =~= seq![
            ("type"@, str_text("function"@)),
            ("function"@, raw_obj(raw_members(f@))),
        ]);
    }
    object_json(&o)
}

/// The body of a request.
pub fn serialize_request(req: &Request) -> (res: String)
    ensures
        res@ == request_text(*req),
{
    let mut parts: Vec<String> = Vec::new();
    if let Some(sys) = &req.system {
        parts.push(push_system(sys.as_str()));
    }
    proof {
        assert(texts(parts@) =~= system_message(req.system));
        assert(system_message(req.system) + all_messages(req.messages@, 0) =~= system_message(
            req.system,
        ));
    }
    let mut i: usize = 0;
    while i < req.messages.len()
        invariant
            i <= req.messages@.len(),
            texts(parts@) == system_message(req.system) + all_messages(req.messages@, i as nat),
        decreases req.messages.len() - i,
    {
        write_message(&mut parts, &req.messages[i]);
        proof {
            assert(texts(parts@) =~= system_message(req.system) + all_messages(
                req.messages@,
                (i + 1) as nat,
            ));
        }
        i += 1;
    }
    let mut o: Vec<(&str, String)> = Vec::new();
    o.push(("model", str_json(req.model.as_str())));
    o.push(("stream", "true".to_owned()));
    let ghost head = seq![("model"@, str_text(req.model@)), ("stream"@, "true"@)];
    if req.max_tokens > 0 {
        o.push(("max_tokens", dec_string(req.max_tokens as u128)));
    }
    proof {
        assert(raw_members(o@) =~= head + tokens_members(req.max_tokens));
    }
    o.push(("messages", array_json(&parts)));
    let ghost body = head + tokens_members(req.max_tokens) + seq![
        (
            "messages"@,
            raw_arr(system_message(req.system) + all_messages(req.messages@, req.messages@.len())),
        ),
    ];
    proof {
        assert(raw_members(o@) =~= body);
    }
    if req.tools.len() > 0 {
        let mut tools: Vec<String> = Vec::new();
        let mut j: usize = 0;
        while j < req.tools.len()
            invariant
                j <= req.tools@.len(),
                tools@.len() == j,
                forall|k: int| 0 <= k < j ==> (#[trigger] tools@[k])@ == tool_text(req.tools@[k]),
            decreases req.tools.len() - j,
        {
            tools.push(write_tool(&req.tools[j]));
            j += 1;
        }
        proof {
            assert(texts(tools@) =~= Seq::new(req.tools@.len(), |k: int| tool_text(req.tools@[k])));
        }
        o.push(("tools", array_json(&tools)));
    }
    proof {
        assert(raw_members(o@) =~= body + tools_members(req.tools@));
    }
    object_json(&o)
}

/// Offset behind the first `://`, or 0 where there is none.
pub open spec fn scheme_end(s: Seq<char>, i: int) -> int
    decreases s.len() - i,
{
    if i < 0 || i >= s.len() {
        0
    } else if starts_with(s.skip(i), "://"@) {
        i + 3
    } else {
        scheme_end(s, i + 1)
    }
}

/// Offset of the first `/`, `:` or `?` at or after `i`, or the length.
pub open spec fn host_end(s: Seq<char>, i: int) -> int
    decreases s.len() - i,
{
    if i >= s.len() {
        s.len() as int
    } else if s[i] == '/' || s[i] == ':' || s[i] == '?' {
        i
    } else {
        host_end(s, i + 1)
    }
}

/// The host in an address.
pub open spec fn host(s: Seq<char>) -> Seq<char> {
    s.subrange(scheme_end(s, 0), host_end(s, scheme_end(s, 0)))
}

/// The host in an address.
pub fn host_of(base_url: &str) -> (res: String)
    ensures
        res@ == host(base_url@),
{
    let chars = chars_of(base_url);
    let s = chars.as_slice();
    let mut from: usize = 0;
    let mut i: usize = 0;
    proof {
        reveal_strlit("://");
    }
    while i < s.len()
        invariant_except_break
            from == 0,
            scheme_end(s@, 0) == scheme_end(s@, i as int),
        invariant
            i <= s@.len(),
            "://"@.len() == 3,
        ensures
            from == scheme_end(s@, 0),
            from <= s@.len(),
        decreases s.len() - i,
    {
        if crate::text::begins(s, i, "://") {
            from = i + 3;
            break;
        }
        i += 1;
    }
    let mut to: usize = from;
    while to < s.len() && !(s[to] == '/' || s[to] == ':' || s[to] == '?')
        invariant
            from <= to <= s@.len(),
            host_end(s@, from as int) == host_end(s@, to as int),
        decreases s.len() - to,
    {
        to += 1;
    }
    text_of(s, from, to)
}

/// The call that a request leads to.
pub open spec fn request_call(key: Seq<char>, base: Seq<char>, r: Request) -> Call {
    Call {
        post: true,
        url: strip_slashes(base) + "/v1/chat/completions"@,
        headers: seq![
            "Authorization: Bearer "@ + key,
            "Content-Type: application/json"@,
            "Accept: text/event-stream"@,
        ],
        body: Some(request_text(r)),
    }
}

/// Why no call is made, if none is. `open` says that the circuit to the host is open.
pub open spec fn refusal(key: Seq<char>, base: Seq<char>, open: bool) -> Option<Seq<char>> {
    if open {
        Some("circuit open for "@ + host(base) + " (recent upstream failures)"@)
    } else if has_nul(strip_slashes(base) + "/v1/chat/completions"@) {
        Some("bad URL"@)
    } else if has_nul("Authorization: Bearer "@ + key) {
        Some("api key contains NUL"@)
    } else {
        None
    }
}

impl Client {
    /// Speaks to OpenAI itself.
    pub fn new(api_key: String) -> (res: Self)
        ensures
            res.api_key == api_key,
            res.base_url@ == "https://api.openai.com"@,
    {
        Client { api_key, base_url: "https://api.openai.com".to_owned() }
    }

    /// Speaks to another address.
    pub fn with_base_url(self, url: &str) -> (res: Self)
        ensures
            res.api_key == self.api_key,
            res.base_url@ == url@,
    {
        Client { api_key: self.api_key, base_url: url.to_owned() }
    }

    /// The call to make for a request; what comes back goes to an `EventStream`. None is
    /// made while the circuit to the host is open.
    pub fn stream(&self, req: &Request, circuit_open: bool) -> (res: Result<HttpCall, Error>)
        ensures
            match refusal(self.api_key@, self.base_url@, circuit_open) {
                Some(why) => res matches Err(e) && e@ == Failure::Http(why),
                None => res matches Ok(call) && call@ == request_call(
                    self.api_key@,
                    self.base_url@,
                    *req,
                ),
            },
    {
        if circuit_open {
            let mut msg = "circuit open for ".to_owned();
            msg.push_str(host_of(self.base_url.as_str()).as_str());
            msg.push_str(" (recent upstream failures)");
            return Err(Error::Http(msg));
        }
        let url = join_url(self.base_url.as_str(), "/v1/chat/completions");
        if holds_nul(url.as_str()) {
            return Err(Error::Http("bad URL".to_owned()));
        }
        let mut auth = "Authorization: Bearer ".to_owned();
        auth.push_str(self.api_key.as_str());
        if holds_nul(auth.as_str()) {
            return Err(Error::Http("api key contains NUL".to_owned()));
        }
        let mut headers: Vec<String> = Vec::new();
        headers.push(auth);
        headers.push("Content-Type: application/json".to_owned());
        headers.push("Accept: text/event-stream".to_owned());
        let call = HttpCall { post: true, url, headers, body: Some(serialize_request(req)) };
        proof {
            assert(call@.headers =~= request_call(self.api_key@, self.base_url@, *req).headers);
        }
        Ok(call)
    }
}

// ---------------------------------------------------------------------------------
// The reply
// ---------------------------------------------------------------------------------
/// A piece of a reply as it arrives.
#[derive(Debug)]
pub enum Chunk {
    Data(Vec<u8>),
    /// The reply is over.
    End,
    /// The transfer failed.
    Failed(Error),
}

/// What a frame was parsed to.
#[derive(Debug)]
pub enum Parsed {
    Events(Vec<Event>),
    /// The frame with which the reply says that it is over.
    Terminate,
}

/// What a look at a reply gives.
#[derive(Debug)]
pub enum Pull {
    /// The next event, or why it cannot be read.
    Event(Result<Event, Error>),
    /// Nothing more will come; the error with which the transfer failed, once.
    Ended(Option<Error>),
    /// Nothing yet; the next chunk has to arrive first.
    Wait,
}

/// A reply in progress. One frame can hold several events; those that were not taken yet
/// wait in `pending`.
#[derive(Debug)]
pub struct EventStream {
    pub framer: SseFramer,
    pub pending: Vec<Event>,
    pub done: bool,
    pub terminated: bool,
    pub terminal: Option<Error>,
}

impl EventStream {
    pub fn new() -> (res: Self)
        ensures
            res.framer@ == Seq::<u8>::empty(),
            res.pending@.len() == 0,
            !res.done,
            !res.terminated,
            res.terminal is None,
    {
        EventStream {
            framer: SseFramer::new(),
            pending: Vec::new(),
            done: false,
            terminated: false,
            terminal: None,
        }
    }

    /// Takes in the next chunk.
    pub fn chunk(&mut self, c: Chunk)
        ensures
            final(self).pending == old(self).pending,
            final(self).terminated == old(self).terminated,
            match c {
                Chunk::Data(b) => final(self).framer@ == old(self).framer@ + b@
                    && final(self).done == old(self).done && final(self).terminal == old(
                    self,
                ).terminal,
                Chunk::End => final(self).framer == old(self).framer && final(self).done
                    && final(self).terminal == old(self).terminal,
                Chunk::Failed(e) => final(self).framer == old(self).framer && final(self).done
                    && final(self).terminal == Some(e),
            },
    {
        match c {
            Chunk::Data(b) => self.framer.push(b.as_slice()),
            Chunk::End => {
                self.done = true;
            },
            Chunk::Failed(e) => {
                self.done = true;
                self.terminal = Some(e);
            },
        }
    }

    /// The next event that waits; otherwise the end if the reply has said so; otherwise the
    /// first event of the frames that are complete; otherwise the end if it has come.
    pub fn try_next(&mut self) -> (res: Pull)
        ensures
            final(self).done == old(self).done,
            partial(final(self).framer@) == partial(old(self).framer@),
            ({
                let s = pull(
                    signs(old(self).pending@),
                    old(self).terminated,
                    frames(old(self).framer@),
                    old(self).done,
                );
                &&& signs(final(self).pending@) == s.pending
                &&& final(self).terminated == s.terminated
                &&& frames(final(self).framer@) == s.frames
                &&& match s.out {
                    Pulled::Event(x) => res matches Pull::Event(Ok(ev)) && ev@ == x
                        && final(self).terminal == old(self).terminal,
                    Pulled::Failed(f) => res matches Pull::Event(Err(e)) && e@ == f
                        && final(self).terminal == old(self).terminal,
                    Pulled::Ended => res == Pull::Ended(old(self).terminal)
                        && final(self).terminal is None,
                    Pulled::Wait => res is Wait && final(self).terminal == old(self).terminal,
                }
            }),
    {
        let ghost goal = pull(
            signs(self.pending@),
            self.terminated,
            frames(self.framer@),
            self.done,
        );
        loop
            invariant
                self.done == old(self).done,
                self.terminal == old(self).terminal,
                partial(self.framer@) == partial(old(self).framer@),
                goal == pull(
                    signs(old(self).pending@),
                    old(self).terminated,
                    frames(old(self).framer@),
                    old(self).done,
                ),
                goal == pull(
                    signs(self.pending@),
                    self.terminated,
                    frames(self.framer@),
                    self.done,
                ),
            decreases
                    self.framer@.len(),
                    if self.terminated {
                        0int
                    } else {
                        1int
                    },
        {
            if self.pending.len() > 0 {
                let ghost p0 = self.pending@;
                let ev = self.pending.remove(0);
                proof {
                    assert(signs(self.pending@) =~= signs(p0).drop_first());
                }
                return Pull::Event(Ok(ev));
            }
            if self.terminated {
                return Pull::Ended(self.terminal.take());
            }
            let ghost fs = frames(self.framer@);
            match self.framer.pop_frame() {
                Some(f) => {
                    proof {
                        assert(fs.drop_first() =~= frames(self.framer@));
                    }
                    match parse_frame(f.as_slice()) {
                        Ok(Parsed::Events(evs)) => {
                            self.pending = evs;
                        },
                        Ok(Parsed::Terminate) => {
                            self.terminated = true;
                        },
                        Err(e) => {
                            return Pull::Event(Err(e));
                        },
                    }
                },
                None => {
                    if !self.done {
                        return Pull::Wait;
                    }
                    self.terminated = true;
                },
            }
        }
    }
}

// ---------------------------------------------------------------------------------
// Events
// ---------------------------------------------------------------------------------
/// Mathematical form of an `Event`.
pub enum Sign {
    TextDelta(Seq<char>),
    ToolUseStart { id: Seq<char>, name: Seq<char> },
    ToolUseInputDelta(Seq<char>),
    ContentBlockStop,
    Stop { reason: Option<Seq<char>> },
    Other(Seq<char>),
}

impl View for Event {
    type V = Sign;

    open spec fn view(&self) -> Sign {
        match *self {
            Event::TextDelta(s) => Sign::TextDelta(s@),
            Event::ToolUseStart { id, name } => Sign::ToolUseStart { id: id@, name: name@ },
            Event::ToolUseInputDelta(s) => Sign::ToolUseInputDelta(s@),
            Event::ContentBlockStop => Sign::ContentBlockStop,
            Event::Stop { reason } => Sign::Stop { reason: maybe(reason) },
            Event::Other(s) => Sign::Other(s@),
        }
    }
}

pub open spec fn signs(e: Seq<Event>) -> Seq<Sign> {
    Seq::new(e.len(), |i: int| e[i]@)
}

/// What comes out of a reply.
pub enum Pulled {
    Event(Sign),
    Failed(Failure),
    Ended,
    Wait,
}

/// What a look at a reply gives and leaves.
pub struct Look {
    pub out: Pulled,
    pub pending: Seq<Sign>,
    pub terminated: bool,
    pub frames: Seq<Seq<u8>>,
}

/// A look at a reply with events that wait and frames that are complete.
pub open spec fn pull(
    pending: Seq<Sign>,
    terminated: bool,
    frames: Seq<Seq<u8>>,
    done: bool,
) -> Look
    decreases frames.len(),
{
    if pending.len() > 0 {
        Look { out: Pulled::Event(pending[0]), pending: pending.drop_first(), terminated, frames }
    } else if terminated || (frames.len() == 0 && done) {
        Look { out: Pulled::Ended, pending, terminated: true, frames }
    } else if frames.len() == 0 {
        Look { out: Pulled::Wait, pending, terminated, frames }
    } else {
        match frame_signs(frames[0]) {
            Ok(Some(evs)) => pull(evs, false, frames.drop_first(), done),
            Ok(None) => Look {
                out: Pulled::Ended,
                pending,
                terminated: true,
                frames: frames.drop_first(),
            },
            Err(f) => Look {
                out: Pulled::Failed(f),
                pending,
                terminated,
                frames: frames.drop_first(),
            },
        }
    }
}

/// One event for a text, none for an empty one.
pub open spec fn grown(s: Seq<char>, input: bool) -> Seq<Sign> {
    if s.len() == 0 {
        Seq::empty()
    } else if input {
        seq![Sign::ToolUseInputDelta(s)]
    } else {
        seq![Sign::TextDelta(s)]
    }
}

/// The events for a tool call: its start, where it has a name, and its input.
pub open spec fn call_signs(c: Val) -> Seq<Sign> {
    let f = member(c, "function"@);
    let name = text_at(f, "name"@);
    let start = if name.len() == 0 {
        Seq::empty()
    } else {
        seq![Sign::ToolUseStart { id: text_at(Some(c), "id"@), name }]
    };
    start + grown(text_at(f, "arguments"@), true)
}

/// The events for the first `n` of some tool calls.
pub open spec fn calls_signs(c: Seq<Val>, n: int) -> Seq<Sign>
    decreases n,
{
    if n <= 0 {
        Seq::empty()
    } else {
        calls_signs(c, n - 1) + call_signs(c[n - 1])
    }
}

/// Why the model stopped, in words that the providers share.
pub open spec fn shared_reason(r: Seq<char>) -> Seq<char> {
    if r == "stop"@ {
        "end_turn"@
    } else if r == "tool_calls"@ {
        "tool_use"@
    } else {
        r
    }
}

/// The events for the end of a choice, if it has come: that of a tool call also ends its
/// block.
pub open spec fn stop_signs(choice: Val) -> Seq<Sign> {
    match member_str(choice, "finish_reason"@) {
        None => Seq::empty(),
        Some(r) => {
            let stop = seq![Sign::Stop { reason: Some(shared_reason(r)) }];
            if r == "tool_calls"@ {
                seq![Sign::ContentBlockStop] + stop
            } else {
                stop
            }
        },
    }
}

/// The events in a choice: its text, its tool calls and its end.
pub open spec fn choice_signs(choice: Val) -> Seq<Sign> {
    let delta = member(choice, "delta"@);
    let calls = match delta {
        Some(d) => match member(d, "tool_calls"@) {
            Some(Val::Arr(c)) => calls_signs(c, c.len() as int),
            _ => Seq::empty(),
        },
        None => Seq::empty(),
    };
    grown(text_at(delta, "content"@), false) + calls + stop_signs(choice)
}

/// The events in a value: those of its first choice.
pub open spec fn value_signs(v: Val) -> Seq<Sign> {
    match member(v, "choices"@) {
        Some(Val::Arr(c)) => if c.len() > 0 {
            choice_signs(c[0])
        } else {
            Seq::empty()
        },
        _ => Seq::empty(),
    }
}

/// The events in a frame; none at all where the frame says that the reply is over.
pub open spec fn frame_signs(frame: Seq<u8>) -> Result<Option<Seq<Sign>>, Failure> {
    match data_from(frame, 0, None) {
        None => Err(Failure::InvalidResponse("frame without data"@)),
        Some(d) => if d == encode_utf8("[DONE]"@) {
            Ok(None)
        } else {
            match parsed(d) {
                Some(v) => Ok(Some(value_signs(v))),
                None => Err(Failure::InvalidResponse("invalid JSON"@)),
            }
        },
    }
}

fn push_event(out: &mut Vec<Event>, ev: Event)
    ensures
        signs(final(out)@) == signs(old(out)@) + seq![ev@],
{
    let ghost o = out@;
    out.push(ev);
    proof {
        assert(signs(out@) =~= signs(o) + seq![ev@]);
    }
}

fn push_grown(out: &mut Vec<Event>, s: String, input: bool)
    ensures
        signs(final(out)@) == signs(old(out)@) + grown(s@, input),
{
    if is_empty(s.as_str()) {
        proof {
            assert(signs(out@) + Seq::<Sign>::empty() =~= signs(out@));
        }
    } else if input {
        push_event(out, Event::ToolUseInputDelta(s));
    } else {
        push_event(out, Event::TextDelta(s));
    }
}

fn push_call(out: &mut Vec<Event>, c: &Json)
    ensures
        signs(final(out)@) == signs(old(out)@) + call_signs(c@),
{
    let ghost o = signs(out@);
    let f = c.get("function");
    let name = text_in(f, "name");
    if !is_empty(name.as_str()) {
        push_event(out, Event::ToolUseStart { id: text_in(Some(c), "id"), name });
    }
    let args = text_in(f, "arguments");
    push_grown(out, args, true);
    proof {
        assert(signs(out@) =~= o + call_signs(c@));
    }
}

fn push_stop(out: &mut Vec<Event>, choice: &Json)
    ensures
        signs(final(out)@) == signs(old(out)@) + stop_signs(choice@),
{
    let ghost o = signs(out@);
    match choice.get_str("finish_reason") {
        None => {
            proof {
                assert(o + Seq::<Sign>::empty() =~= o);
            }
        },
        Some(r) => {
            let reason = if text_eq(r, "stop") {
                "end_turn".to_owned()
            } else if text_eq(r, "tool_calls") {
                push_event(out, Event::ContentBlockStop);
                "tool_use".to_owned()
            } else {
                r.to_owned()
            };
            push_event(out, Event::Stop { reason: Some(reason) });
            proof {
                reveal_strlit("stop");
                reveal_strlit("tool_calls");
                assert("stop"@.len() == 4);
                assert("tool_calls"@.len() == 10);
                assert(signs(out@) =~= o + stop_signs(choice@));
            }
        },
    }
}

fn read_choice(choice: &Json) -> (res: Vec<Event>)
    ensures
        signs(res@) == choice_signs(choice@),
{
    let mut out: Vec<Event> = Vec::new();
    let delta = choice.get("delta");
    push_grown(&mut out, text_in(delta, "content"), false);
    let ghost o = signs(out@);
    proof {
        assert(o =~= grown(text_at(maybe_val(delta), "content"@), false));
        assert(o + Seq::<Sign>::empty() =~= o);
    }
    if let Some(d) = delta {
        if let Some(Json::Arr(c)) = d.get("tool_calls") {
            let ghost vals = vals_of(c@);
            let mut i: usize = 0;
            while i < c.len()
                invariant
                    i <= c@.len(),
                    vals == vals_of(c@),
                    signs(out@) == o + calls_signs(vals, i as int),
                decreases c.len() - i,
            {
                push_call(&mut out, &c[i]);
                proof {
                    assert(vals[i as int] == c@[i as int]@);
                    assert(signs(out@) =~= o + calls_signs(vals, i + 1));
                }
                i += 1;
            }
        }
    }
    push_stop(&mut out, choice);
    proof {
        assert(signs(out@) =~= choice_signs(choice@));
    }
    out
}

fn read_value(v: &Json) -> (res: Vec<Event>)
    ensures
        signs(res@) == value_signs(v@),
{
    if let Some(Json::Arr(c)) = v.get("choices") {
        if c.len() > 0 {
            proof {
                assert(vals_of(c@)[0] == c@[0]@);
            }
            return read_choice(&c[0]);
        }
    }
    let res: Vec<Event> = Vec::new();
    proof {
        assert(signs(res@) =~= Seq::empty());
    }
    res
}

/// The events in a frame.
pub fn parse_frame(frame: &[u8]) -> (res: Result<Parsed, Error>)
    ensures
        match frame_signs(frame@) {
            Ok(Some(s)) => res matches Ok(Parsed::Events(e)) && signs(e@) == s,
            Ok(None) => res matches Ok(Parsed::Terminate),
            Err(f) => res matches Err(e) && e@ == f,
        },
{
    let data = match frame_data(frame) {
        Some(d) => d,
        None => {
            return Err(Error::InvalidResponse("frame without data".to_owned()));
        },
    };
    if bytes_eq(data.as_slice(), "[DONE]".as_bytes()) {
        return Ok(Parsed::Terminate);
    }
    match parse(data.as_slice()) {
        Ok(v) => Ok(Parsed::Events(read_value(&v))),
        Err(_) => Err(Error::InvalidResponse("invalid JSON".to_owned())),
    }
}

// ---------------------------------------------------------------------------------
// Laws
// ---------------------------------------------------------------------------------
/// The texts of a message, in their order.
pub open spec fn said_blocks(c: Seq<ContentBlock>) -> Seq<ContentBlock> {
    c.filter(|b: ContentBlock| b is Text)
}

/// The tool uses of a message, in their order.
pub open spec fn use_blocks(c: Seq<ContentBlock>) -> Seq<ContentBlock> {
    c.filter(|b: ContentBlock| b is ToolUse)
}

proof fn lemma_said(c: Seq<ContentBlock>)
    ensures
        text_blocks(c, c.len()).len() == said_blocks(c).len(),
        forall|j: int|
            0 <= j < said_blocks(c).len() ==> (#[trigger] said_blocks(c)[j] matches ContentBlock::Text(
                t,
            ) && text_blocks(c, c.len())[j] == t@),
    decreases c.len(),
{
    reveal(Seq::filter);
    if c.len() > 0 {
        lemma_said(c.drop_last());
        lemma_blocks_prefix(c, c.drop_last(), (c.len() - 1) as nat);
    }
}

proof fn lemma_uses(c: Seq<ContentBlock>)
    ensures
        call_blocks(c, c.len()).len() == use_blocks(c).len(),
        forall|j: int|
            0 <= j < use_blocks(c).len() ==> (#[trigger] use_blocks(c)[j] matches ContentBlock::ToolUse {
                id,
                name,
                input,
            } && call_blocks(c, c.len())[j] == call_text(id@, name@, input@)),
    decreases c.len(),
{
    reveal(Seq::filter);
    if c.len() > 0 {
        lemma_uses(c.drop_last());
        lemma_blocks_prefix(c, c.drop_last(), (c.len() - 1) as nat);
    }
}

proof fn lemma_blocks_prefix(c: Seq<ContentBlock>, p: Seq<ContentBlock>, n: nat)
    requires
        n <= p.len() <= c.len(),
        forall|i: int| 0 <= i < n ==> c[i] == p[i],
    ensures
        text_blocks(c, n) == text_blocks(p, n),
        call_blocks(c, n) == call_blocks(p, n),
    decreases n,
{
    if n > 0 {
        lemma_blocks_prefix(c, p, (n - 1) as nat);
    }
}

/// Whether a value is a tool call with this id, name and input.
pub open spec fn is_call(v: Val, id: Seq<char>, name: Seq<char>, input: Seq<char>) -> bool {
    &&& member_str(v, "id"@) == Some(id)
    &&& member_str(v, "type"@) == Some("function"@)
    &&& member(v, "function"@) matches Some(f) && member_str(f, "name"@) == Some(name)
        && member_str(f, "arguments"@) == Some(input)
}

proof fn lemma_keys()
    ensures
        "id"@.len() == 2,
        "type"@.len() == 4,
        "function"@.len() == 8,
        "name"@.len() == 4,
        "arguments"@.len() == 9,
        "role"@.len() == 4,
        "content"@.len() == 7,
        "tool_calls"@.len() == 10,
        "tool_call_id"@.len() == 12,
        "text"@.len() == 4,
        "parameters"@.len() == 10,
        "description"@.len() == 11,
        "model"@.len() == 5,
        "stream"@.len() == 6,
        "max_tokens"@.len() == 10,
        "messages"@.len() == 8,
        "tools"@.len() == 5,
        "model"@[0] == 'm',
        "tools"@[0] == 't',
        "type"@[1] == 'y',
        "text"@[1] == 'e',
        "tool_calls"@ != "max_tokens"@,
{
    reveal_strlit("id");
    reveal_strlit("type");
    reveal_strlit("function");
    reveal_strlit("name");
    reveal_strlit("arguments");
    reveal_strlit("role");
    reveal_strlit("content");
    reveal_strlit("tool_calls");
    reveal_strlit("tool_call_id");
    reveal_strlit("text");
    reveal_strlit("parameters");
    reveal_strlit("description");
    reveal_strlit("model");
    reveal_strlit("stream");
    reveal_strlit("max_tokens");
    reveal_strlit("messages");
    reveal_strlit("tools");
    assert("tool_calls"@[0] == 't' && "max_tokens"@[0] == 'm');
}

proof fn lemma_call(id: Seq<char>, name: Seq<char>, input: Seq<char>)
    ensures
        document(call_text(id, name, input)) matches Some(v) && is_call(v, id, name, input),
{
    lemma_string(id);
    lemma_string("function"@);
    lemma_string(name);
    lemma_string(input);
    let ft = seq![("name"@, str_text(name)), ("arguments"@, str_text(input))];
    let fv = seq![("name"@, Val::Str(name)), ("arguments"@, Val::Str(input))];
    lemma_object(ft, fv);
    let t = seq![
        ("id"@, str_text(id)),
        ("type"@, str_text("function"@)),
        ("function"@, raw_obj(ft)),
    ];
    let o = seq![
        ("id"@, Val::Str(id)),
        ("type"@, Val::Str("function"@)),
        ("function"@, Val::Obj(fv)),
    ];
    lemma_object(t, o);
    lemma_keys();
    reveal_with_fuel(member_from, 4);
}

/// Whether a value is a tool result with this id and content: a message of its own.
pub open spec fn is_result(v: Val, id: Seq<char>, content: Seq<char>) -> bool {
    &&& member_str(v, "role"@) == Some("tool"@)
    &&& member_str(v, "tool_call_id"@) == Some(id)
    &&& member_str(v, "content"@) == Some(content)
}

/// A message that holds tool results and nothing else is sent as one message for each of
/// them, in their order, with its id and its content.
pub proof fn law_results_are_sent_one_by_one(m: Message)
    requires
        m.role != Role::Assistant,
        m.content@.len() > 0,
        forall|i: int| 0 <= i < m.content@.len() ==> (#[trigger] m.content@[i]) is ToolResult,
    ensures
        wire_messages(m).len() == m.content@.len(),
        forall|i: int|
            0 <= i < m.content@.len() ==> (document(#[trigger] wire_messages(m)[i]) matches Some(v)
                && (m.content@[i] matches ContentBlock::ToolResult { tool_use_id, content }
                && is_result(v, tool_use_id@, content@))),
{
    assert forall|i: int| 0 <= i < m.content@.len() implies (document(
        #[trigger] wire_messages(m)[i],
    ) matches Some(v) && (m.content@[i] matches ContentBlock::ToolResult { tool_use_id, content }
        && is_result(v, tool_use_id@, content@))) by {
        let b = m.content@[i];
        assert(b is ToolResult);
        lemma_string("tool"@);
        lemma_string(b->tool_use_id@);
        lemma_string(b->content@);
        let t = seq![
            ("role"@, str_text("tool"@)),
            ("tool_call_id"@, str_text(b->tool_use_id@)),
            ("content"@, str_text(b->content@)),
        ];
        let o = seq![
            ("role"@, Val::Str("tool"@)),
            ("tool_call_id"@, Val::Str(b->tool_use_id@)),
            ("content"@, Val::Str(b->content@)),
        ];
        lemma_object(t, o);
        lemma_keys();
        reveal_with_fuel(member_from, 4);
    }
}

/// Whether a value tells some texts: null for none, the text for one, and parts in their order
/// for more.
pub open spec fn tells(v: Val, c: Seq<ContentBlock>) -> bool {
    let said = said_blocks(c);
    if said.len() == 0 {
        v is Null
    } else if said.len() == 1 {
        said[0] matches ContentBlock::Text(t) && v == Val::Str(t@)
    } else {
        v matches Val::Arr(a) && a.len() == said.len() && forall|j: int|
            0 <= j < a.len() ==> {
                &&& member_str(#[trigger] a[j], "type"@) == Some("text"@)
                &&& said[j] matches ContentBlock::Text(t) && member_str(a[j], "text"@) == Some(t@)
            }
    }
}

proof fn lemma_content(c: Seq<ContentBlock>)
    ensures
        document(content_text(text_blocks(c, c.len()))) matches Some(v) && tells(v, c),
{
    let t = text_blocks(c, c.len());
    let said = said_blocks(c);
    lemma_said(c);
    if t.len() == 0 {
        lemma_null();
    } else if t.len() == 1 {
        lemma_string(t[0]);
        assert(said[0] matches ContentBlock::Text(x) && t[0] == x@);
    } else {
        let p = Seq::new(t.len(), |i: int| part_text(t[i]));
        let a = Seq::new(
            t.len(),
            |i: int| Val::Obj(seq![("type"@, Val::Str("text"@)), ("text"@, Val::Str(t[i]))]),
        );
        lemma_string("text"@);
        lemma_keys();
        assert forall|i: int| 0 <= i < a.len() implies document(#[trigger] p[i]) == Some(a[i]) by {
            lemma_string(t[i]);
            lemma_object(
                seq![("type"@, str_text("text"@)), ("text"@, str_text(t[i]))],
                seq![("type"@, Val::Str("text"@)), ("text"@, Val::Str(t[i]))],
            );
        }
        lemma_array(p, a);
        reveal_with_fuel(member_from, 3);
        assert forall|j: int| 0 <= j < a.len() implies member_str(#[trigger] a[j], "type"@) == Some(
            "text"@,
        ) && (said[j] matches ContentBlock::Text(x) && member_str(a[j], "text"@) == Some(x@)) by {}
    }
}

/// Whether a value is what is sent for a message that does not hold results alone.
pub open spec fn is_message(v: Val, m: Message) -> bool {
    let uses = use_blocks(m.content@);
    &&& m.role == Role::User ==> member_str(v, "role"@) == Some("user"@)
    &&& m.role == Role::Assistant ==> member_str(v, "role"@) == Some("assistant"@)
    &&& m.role == Role::Tool ==> member_str(v, "role"@) == Some("tool"@)
    &&& member(v, "content"@) matches Some(c) && tells(c, m.content@)
    &&& uses.len() == 0 ==> member(v, "tool_calls"@) is None
    &&& uses.len() > 0 ==> (member(v, "tool_calls"@) matches Some(Val::Arr(a)) && a.len()
        == uses.len() && forall|j: int|
        0 <= j < a.len() ==> (uses[j] matches ContentBlock::ToolUse { id, name, input } && is_call(
            #[trigger] a[j],
            id@,
            name@,
            input@,
        )))
}

/// Any other message is sent as one: with its role, all its texts in their order, and one tool
/// call for each of its tool uses, in their order, with its id, its name and its input.
pub proof fn law_message_is_sent_whole(m: Message)
    requires
        m.role == Role::Assistant || m.content@.len() == 0 || exists|i: int|
            0 <= i < m.content@.len() && !((#[trigger] m.content@[i]) is ToolResult),
    ensures
        wire_messages(m).len() == 1,
        document(wire_messages(m)[0]) matches Some(v) && is_message(v, m),
{
    let c = m.content@;
    let uses = use_blocks(c);
    lemma_content(c);
    lemma_uses(c);
    lemma_string(role_name(m.role));
    let calls = call_blocks(c, c.len());
    let vals = Seq::new(calls.len(), |j: int| document(calls[j])->0);
    assert forall|j: int| 0 <= j < calls.len() implies document(#[trigger] calls[j]) == Some(vals[j])
        && (uses[j] matches ContentBlock::ToolUse { id, name, input } && is_call(
        vals[j],
        id@,
        name@,
        input@,
    )) by {
        if let ContentBlock::ToolUse { id, name, input } = uses[j] {
            lemma_call(id@, name@, input@);
        }
    }
    lemma_array(calls, vals);
    let content = document(content_text(text_blocks(c, c.len())))->0;
    let head = seq![("role"@, Val::Str(role_name(m.role))), ("content"@, content)];
    let more: Seq<(Seq<char>, Val)> = if calls.len() > 0 {
        seq![("tool_calls"@, Val::Arr(vals))]
    } else {
        Seq::empty()
    };
    let t = seq![
        ("role"@, str_text(role_name(m.role))),
        ("content"@, content_text(text_blocks(c, c.len()))),
    ] + calls_members(c);
    let o = head + more;
    assert forall|i: int| 0 <= i < o.len() implies (#[trigger] t[i]).0 == o[i].0 && document(t[i].1)
        == Some(o[i].1) by {}
    lemma_object(t, o);
    lemma_keys();
    reveal_with_fuel(member_from, 4);
    let v = Val::Obj(o);
    assert(member(v, "content"@) == Some(content));
    if calls.len() > 0 {
        assert(member(v, "tool_calls"@) == Some(Val::Arr(vals)));
        assert forall|j: int| 0 <= j < vals.len() implies (uses[j] matches ContentBlock::ToolUse {
            id,
            name,
            input,
        } && is_call(#[trigger] vals[j], id@, name@, input@)) by {
            assert(document(calls[j]) == Some(vals[j]));
        }
    }
}

/// Number of messages that are sent for the first `n`.
pub open spec fn sent_before(m: Seq<Message>, n: int) -> int
    decreases n,
{
    if n <= 0 {
        0
    } else {
        let c = m[n - 1].content@;
        sent_before(m, n - 1) + if m[n - 1].role != Role::Assistant && c.len() > 0 && forall|i: int|
            0 <= i < c.len() ==> (#[trigger] c[i]) is ToolResult {
            c.len() as int
        } else {
            1
        }
    }
}

proof fn lemma_all_messages(m: Seq<Message>, n: nat, i: int, j: int)
    requires
        n <= m.len(),
        0 <= i < n,
        0 <= j < wire_messages(m[i]).len(),
    ensures
        all_messages(m, n).len() == sent_before(m, n as int),
        0 <= sent_before(m, i) + j < all_messages(m, n).len(),
        all_messages(m, n)[sent_before(m, i) + j] == wire_messages(m[i])[j],
    decreases n,
{
    lemma_all_len(m, n);
    lemma_all_len(m, (n - 1) as nat);
    lemma_all_len(m, i as nat);
    if i < n - 1 {
        lemma_all_messages(m, (n - 1) as nat, i, j);
    }
}

proof fn lemma_all_len(m: Seq<Message>, n: nat)
    requires
        n <= m.len(),
    ensures
        all_messages(m, n).len() == sent_before(m, n as int),
        0 <= sent_before(m, n as int),
    decreases n,
{
    if n > 0 {
        lemma_all_len(m, (n - 1) as nat);
    }
}

proof fn lemma_all_read(m: Seq<Message>, n: nat, k: int)
    requires
        n <= m.len(),
        0 <= k < all_messages(m, n).len(),
    ensures
        document(all_messages(m, n)[k]) is Some,
    decreases n,
{
    if n > 0 {
        let before = all_messages(m, (n - 1) as nat);
        if k < before.len() {
            lemma_all_read(m, (n - 1) as nat, k);
        } else {
            let x = m[n - 1];
            assert(all_messages(m, n)[k] == wire_messages(x)[k - before.len()]);
            if only_results(x) {
                law_results_are_sent_one_by_one(x);
            } else {
                law_message_is_sent_whole(x);
            }
        }
    }
}

proof fn lemma_tool(t: Tool)
    requires
        document(t.input_schema@) is Some,
    ensures
        document(tool_text(t)) matches Some(v) && member_str(v, "type"@) == Some("function"@) && (
        member(v, "function"@) matches Some(f) && member_str(f, "name"@) == Some(t.name@)
            && member_str(f, "description"@) == Some(t.description@) && member(f, "parameters"@)
            == document(t.input_schema@)),
{
    lemma_string("function"@);
    lemma_string(t.name@);
    lemma_string(t.description@);
    let ft = seq![
        ("name"@, str_text(t.name@)),
        ("description"@, str_text(t.description@)),
        ("parameters"@, t.input_schema@),
    ];
    let fv = seq![
        ("name"@, Val::Str(t.name@)),
        ("description"@, Val::Str(t.description@)),
        ("parameters"@, document(t.input_schema@)->0),
    ];
    lemma_object(ft, fv);
    lemma_object(
        seq![("type"@, str_text("function"@)), ("function"@, raw_obj(ft))],
        seq![("type"@, Val::Str("function"@)), ("function"@, Val::Obj(fv))],
    );
    lemma_keys();
    reveal_with_fuel(member_from, 4);
}

/// The body of a request is a JSON text that tells the model, the number of tokens unless it
/// is 0, the system prompt as the first message if there is one, behind it what is sent for
/// every message, in their order, and every tool in its place.
pub proof fn law_request_reads_back(r: Request)
    requires
        forall|i: int|
            0 <= i < r.tools@.len() ==> document((#[trigger] r.tools@[i]).input_schema@) is Some,
    ensures
        document(request_text(r)) matches Some(v) && {
            &&& member_str(v, "model"@) == Some(r.model@)
            &&& member(v, "stream"@) == Some(Val::Bool(true))
            &&& r.max_tokens == 0 ==> member(v, "max_tokens"@) is None
            &&& r.max_tokens > 0 ==> member(v, "max_tokens"@) == Some(
                Val::Num(dec(r.max_tokens as nat)),
            )
            &&& member(v, "messages"@) matches Some(Val::Arr(a)) && {
                let first = if r.system is Some {
                    1int
                } else {
                    0
                };
                &&& a.len() == first + sent_before(r.messages@, r.messages@.len() as int)
                &&& r.system matches Some(s) ==> member_str(a[0], "role"@) == Some("system"@)
                    && member_str(a[0], "content"@) == Some(s@)
                &&& forall|i: int, j: int|
                    0 <= i < r.messages@.len() && 0 <= j < wire_messages(r.messages@[i]).len()
                        ==> document(#[trigger] wire_messages(r.messages@[i])[j]) == Some(
                        a[first + sent_before(r.messages@, i) + j],
                    )
            }
            &&& r.tools@.len() == 0 ==> member(v, "tools"@) is None
            &&& r.tools@.len() > 0 ==> (member(v, "tools"@) matches Some(Val::Arr(a)) && {
                &&& a.len() == r.tools@.len()
                &&& forall|i: int|
                    0 <= i < a.len() ==> member_str(#[trigger] a[i], "type"@) == Some("function"@)
                        && (member(a[i], "function"@) matches Some(f) && member_str(f, "name"@)
                        == Some(r.tools@[i].name@) && member_str(f, "description"@) == Some(
                        r.tools@[i].description@,
                    ) && member(f, "parameters"@) == document(r.tools@[i].input_schema@))
            })
        },
{
    let n = r.messages@.len();
    let all = all_messages(r.messages@, n);
    let mt = system_message(r.system) + all;
    let first = system_message(r.system).len();
    let mv = Seq::new(mt.len(), |i: int| document(mt[i])->0);
    lemma_all_len(r.messages@, n);
    lemma_string("system"@);
    if let Some(s) = r.system {
        lemma_string(s@);
        lemma_object(
            seq![("role"@, str_text("system"@)), ("content"@, str_text(s@))],
            seq![("role"@, Val::Str("system"@)), ("content"@, Val::Str(s@))],
        );
    }
    assert forall|i: int| 0 <= i < mv.len() implies document(#[trigger] mt[i]) == Some(mv[i]) by {
        if i >= first {
            lemma_all_read(r.messages@, n, i - first);
            assert(mt[i] == all[i - first]);
        }
    }
    lemma_array(mt, mv);
    let tt = Seq::new(r.tools@.len(), |i: int| tool_text(r.tools@[i]));
    let tv = Seq::new(r.tools@.len(), |i: int| document(tt[i])->0);
    assert forall|i: int| 0 <= i < tv.len() implies document(#[trigger] tt[i]) == Some(tv[i]) by {
        assert(document(r.tools@[i].input_schema@) is Some);
        lemma_tool(r.tools@[i]);
    }
    lemma_array(tt, tv);
    lemma_string(r.model@);
    lemma_signed_number(r.max_tokens as int, 0, u32::MAX as int);
    lemma_number(dec(r.max_tokens as nat));
    lemma_true();
    let head = seq![("model"@, Val::Str(r.model@)), ("stream"@, Val::Bool(true))];
    let tokens: Seq<(Seq<char>, Val)> = if r.max_tokens > 0 {
        seq![("max_tokens"@, Val::Num(dec(r.max_tokens as nat)))]
    } else {
        Seq::empty()
    };
    let tools: Seq<(Seq<char>, Val)> = if r.tools@.len() > 0 {
        seq![("tools"@, Val::Arr(tv))]
    } else {
        Seq::empty()
    };
    let o = head + tokens + seq![("messages"@, Val::Arr(mv))] + tools;
    let m = seq![("model"@, str_text(r.model@)), ("stream"@, "true"@)] + tokens_members(
        r.max_tokens,
    ) + seq![("messages"@, raw_arr(mt))] + tools_members(r.tools@);
    assert forall|i: int| 0 <= i < o.len() implies (#[trigger] m[i]).0 == o[i].0 && document(m[i].1)
        == Some(o[i].1) by {}
    lemma_object(m, o);
    lemma_keys();
    reveal_with_fuel(member_from, 7);
    assert forall|i: int, j: int|
        0 <= i < n && 0 <= j < wire_messages(r.messages@[i]).len() implies document(
        #[trigger] wire_messages(r.messages@[i])[j],
    ) == Some(mv[first + sent_before(r.messages@, i) + j]) by {
        lemma_all_messages(r.messages@, n, i, j);
        let k = first + sent_before(r.messages@, i) + j;
        assert(mt[k] == all[k - first]);
        assert(document(mt[k]) == Some(mv[k]));
    }
    assert forall|i: int| 0 <= i < tv.len() implies member_str(#[trigger] tv[i], "type"@) == Some(
        "function"@,
    ) && (member(tv[i], "function"@) matches Some(f) && member_str(f, "name"@) == Some(
        r.tools@[i].name@,
    ) && member_str(f, "description"@) == Some(r.tools@[i].description@) && member(f, "parameters"@)
        == document(r.tools@[i].input_schema@)) by {
        assert(document(r.tools@[i].input_schema@) is Some);
        lemma_tool(r.tools@[i]);
        assert(document(tt[i]) == Some(tv[i]));
    }
    if r.system is Some {
        assert(mt[0] == system_message(r.system)[0]);
        assert(document(mt[0]) == Some(mv[0]));
    }
}

/// What a tool call of a reply leads to: the beginning of a use if it has a name, and more
/// input if it has any.
pub open spec fn heard_call(c: Val) -> Seq<Sign> {
    let name = text_at(member(c, "function"@), "name"@);
    let input = text_at(member(c, "function"@), "arguments"@);
    let id = match member_str(c, "id"@) {
        Some(x) => x,
        None => Seq::empty(),
    };
    if name.len() > 0 && input.len() > 0 {
        seq![Sign::ToolUseStart { id, name }, Sign::ToolUseInputDelta(input)]
    } else if name.len() > 0 {
        seq![Sign::ToolUseStart { id, name }]
    } else if input.len() > 0 {
        seq![Sign::ToolUseInputDelta(input)]
    } else {
        Seq::empty()
    }
}

proof fn lemma_calls(c: Seq<Val>, n: int)
    requires
        0 <= n <= c.len(),
    ensures
        calls_signs(c, n) == c.take(n).map_values(|x: Val| heard_call(x)).flatten(),
    decreases n,
{
    let f = |x: Val| heard_call(x);
    if n > 0 {
        lemma_calls(c, n - 1);
        assert(c.take(n) =~= c.take(n - 1).push(c[n - 1]));
        assert(c.take(n).map_values(f) =~= c.take(n - 1).map_values(f).push(heard_call(c[n - 1])));
        c.take(n - 1).map_values(f).lemma_flatten_push(heard_call(c[n - 1]));
        assert(call_signs(c[n - 1]) =~= heard_call(c[n - 1]));
    } else {
        assert(c.take(0).map_values(f) =~= Seq::empty());
    }
}

/// A piece of a reply tells the text of its first choice, then all of its tool calls in their
/// order, then why the model stopped, each only where it is there. A stop for tool calls ends
/// their block first.
pub proof fn law_reply_is_told(v: Val, rest: Seq<Val>, choice: Val)
    requires
        member(v, "choices"@) == Some(Val::Arr(seq![choice] + rest)),
    ensures
        ({
            let said = text_at(member(choice, "delta"@), "content"@);
            let text = if said.len() > 0 {
                seq![Sign::TextDelta(said)]
            } else {
                Seq::empty()
            };
            let calls = match member(choice, "delta"@) {
                Some(d) => match member(d, "tool_calls"@) {
                    Some(Val::Arr(c)) => c.map_values(|x: Val| heard_call(x)).flatten(),
                    _ => Seq::empty(),
                },
                None => Seq::empty(),
            };
            let end = match member_str(choice, "finish_reason"@) {
                None => Seq::empty(),
                Some(r) => if r == "tool_calls"@ {
                    seq![Sign::ContentBlockStop, Sign::Stop { reason: Some("tool_use"@) }]
                } else if r == "stop"@ {
                    seq![Sign::Stop { reason: Some("end_turn"@) }]
                } else {
                    seq![Sign::Stop { reason: Some(r) }]
                },
            };
            value_signs(v) == text + calls + end
        }),
{
    reveal_strlit("stop");
    reveal_strlit("tool_calls");
    assert("stop"@.len() == 4 && "tool_calls"@.len() == 10);
    assert((seq![choice] + rest)[0] == choice);
    if let Some(d) = member(choice, "delta"@) {
        if let Some(Val::Arr(c)) = member(d, "tool_calls"@) {
            lemma_calls(c, c.len() as int);
            assert(c.take(c.len() as int) =~= c);
        }
    }
    if let Some(r) = member_str(choice, "finish_reason"@) {
        if r == "tool_calls"@ {
            assert(stop_signs(choice) =~= seq![
                Sign::ContentBlockStop,
                Sign::Stop { reason: Some("tool_use"@) },
            ]);
        }
    }
}

/// The frame that says `[DONE]` ends a reply; a frame without data or whose data is no JSON is an
/// error; any other tells what its data tells.
pub proof fn law_frames_are_told(frame: Seq<u8>)
    ensures
        match data_from(frame, 0, None) {
            None => frame_signs(frame) is Err,
            Some(d) => {
                &&& d == encode_utf8("[DONE]"@) ==> frame_signs(frame) == Ok::<
                    Option<Seq<Sign>>,
                    Failure,
                >(None)
                &&& d != encode_utf8("[DONE]"@) && parsed(d) is None ==> frame_signs(frame) is Err
                &&& d != encode_utf8("[DONE]"@) ==> (parsed(d) matches Some(v) ==> frame_signs(frame)
                    == Ok::<Option<Seq<Sign>>, Failure>(Some(value_signs(v))))
            },
        },
{
}

/// Events come out in their order: those that wait before those of the next frame, of which each
/// is taken once. A reply has ended only when nothing waits.
pub proof fn law_events_come_out_in_order(
    pending: Seq<Sign>,
    terminated: bool,
    frames: Seq<Seq<u8>>,
    done: bool,
)
    ensures
        pending.len() > 0 ==> {
            let l = pull(pending, terminated, frames, done);
            &&& l.out == Pulled::Event(pending[0])
            &&& l.pending == pending.drop_first()
            &&& l.frames == frames
            &&& l.terminated == terminated
        },
        pending.len() == 0 && terminated ==> pull(pending, terminated, frames, done).out is Ended,
        pending.len() == 0 && !terminated && frames.len() == 0 ==> {
            let out = pull(pending, terminated, frames, done).out;
            if done {
                out is Ended
            } else {
                out is Wait
            }
        },
        pending.len() == 0 && !terminated && frames.len() > 0 ==> {
            let l = pull(pending, terminated, frames, done);
            match frame_signs(frames[0]) {
                Ok(Some(e)) => l == pull(e, false, frames.drop_first(), done),
                Ok(None) => l.out is Ended && l.terminated && l.frames == frames.drop_first(),
                Err(f) => l.out == Pulled::Failed(f) && l.frames == frames.drop_first()
                    && !l.terminated && l.pending.len() == 0,
            }
        },
{
}

/// A request is posted to the address of the provider, with the key, and its body is the request.
/// Slashes at the end of the address make no difference.
pub proof fn law_request_is_posted(key: Seq<char>, base: Seq<char>, r: Request)
    ensures
        request_call(key, base.push('/'), r) == request_call(key, base, r),
        base.len() > 0 && base.last() != '/' ==> request_call(key, base, r).url == base
            + "/v1/chat/completions"@,
        request_call(key, base, r).post,
        request_call(key, base, r).body == Some(request_text(r)),
        request_call(key, base, r).headers =~= seq![
            "Authorization: Bearer "@ + key,
            "Content-Type: application/json"@,
            "Accept: text/event-stream"@,
        ],
{
    assert(base.push('/').drop_last() =~= base);
}

/// The host in an address is what stands between its scheme and the next slash, colon or
/// question mark.
pub proof fn law_host_is_cut_out(scheme: Seq<char>, name: Seq<char>, rest: Seq<char>)
    requires
        forall|i: int| 0 <= i < scheme.len() ==> #[trigger] scheme[i] != ':',
        forall|i: int|
            0 <= i < name.len() ==> #[trigger] name[i] != '/' && name[i] != ':' && name[i] != '?',
        rest.len() == 0 || rest[0] == '/' || rest[0] == ':' || rest[0] == '?',
    ensures
        host(scheme + "://"@ + name + rest) == name,
{
    let s = scheme + "://"@ + name + rest;
    reveal_strlit("://");
    assert(s.skip(scheme.len() as int).take(3) =~= "://"@);
    lemma_scheme_end(s, 0, scheme.len() as int);
    let from = scheme.len() as int + 3;
    assert forall|i: int| from <= i < from + name.len() implies #[trigger] s[i] != '/' && s[i] != ':'
        && s[i] != '?' by {
        assert(s[i] == name[i - from]);
    }
    if rest.len() > 0 {
        assert(s[from + name.len() as int] == rest[0]);
    }
    lemma_host_end(s, from, from + name.len() as int);
    assert(s.subrange(from, from + name.len() as int) =~= name);
}

proof fn lemma_scheme_end(s: Seq<char>, i: int, z: int)
    requires
        0 <= i <= z < s.len(),
        starts_with(s.skip(z), "://"@),
        forall|k: int| i <= k < z ==> #[trigger] s[k] != ':',
    ensures
        scheme_end(s, i) == z + 3,
    decreases z - i,
{
    reveal_strlit("://");
    if i < z {
        assert(s[i] != ':');
        assert(s.skip(i)[0] == s[i]);
        assert(!starts_with(s.skip(i), "://"@)) by {
            if starts_with(s.skip(i), "://"@) {
                assert("://"@[0] == ':');
                assert(s.skip(i).take(3)[0] == s[i]);
            }
        }
        lemma_scheme_end(s, i + 1, z);
    }
}

proof fn lemma_host_end(s: Seq<char>, i: int, z: int)
    requires
        0 <= i <= z <= s.len(),
        forall|k: int| i <= k < z ==> #[trigger] s[k] != '/' && s[k] != ':' && s[k] != '?',
        z == s.len() || s[z] == '/' || s[z] == ':' || s[z] == '?',
    ensures
        host_end(s, i) == z,
    decreases z - i,
{
    if i < z {
        assert(s[i] != '/' && s[i] != ':' && s[i] != '?');
        lemma_host_end(s, i + 1, z);
    }
}

/// No call is made while the circuit to the host is open, nor where a NUL stands in the address or
/// in the key; otherwise one is.
pub proof fn law_calls_that_are_not_made(key: Seq<char>, base: Seq<char>)
    ensures
        refusal(key, base, true) == Some(
            "circuit open for "@ + host(base) + " (recent upstream failures)"@,
        ),
        refusal(key, base, false) is Some <==> has_nul(strip_slashes(base) + "/v1/chat/completions"@)
            || has_nul("Authorization: Bearer "@ + key),
{
}

/// A piece of a reply without a choice tells nothing.
pub proof fn law_no_choice_tells_nothing(v: Val)
    requires
        member(v, "choices"@) matches Some(Val::Arr(a)) ==> a.len() == 0,
    ensures
        value_signs(v) == Seq::<Sign>::empty(),
{
}

} // verus!
