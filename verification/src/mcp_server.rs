//! Server for the Model Context Protocol: JSON-RPC, one JSON text to a line, for one client.
//!
//! The server decides what every line is answered. Reading and writing lines, and running
//! a tool, is the caller's part.

use vstd::prelude::*;
use vstd::utf8::*;

use crate::json::{
    array_json, document, json_to_string, lemma_array, lemma_number, lemma_object,
    lemma_signed_number, lemma_string, lemma_true, member, member_from, member_str, object_json, parse, parsed,
    raw_arr, raw_members, raw_obj, str_json, str_text, text, Json, Val,
};
use crate::mcp::{
    blank, block_text, call_event, heard, is_blank, result_text, Event, Heard, Mishap,
};
use crate::text::{
    dec, lemma_encode_concat, push_dec, push_signed, signed_dec, signed_value, parse_signed, text_eq, texts,
};
use crate::wire::ndjson::{lines, partial, NdjsonSplitter};

verus! {

/// The protocol that the server speaks.
pub open spec fn protocol_version() -> Seq<char> {
    "2024-11-05"@
}

/// Why the server stopped.
#[derive(Debug)]
pub enum ServerError {
    /// The text of an operating-system error.
    Io(String),
    /// A line of at least so many bytes did not end.
    OversizedFrame(usize),
}

impl ServerError {
    /// The text that describes the error.
    pub fn message(&self) -> (res: String)
        ensures
            res@ == (match *self {
                ServerError::Io(m) => "io: "@ + m@,
                ServerError::OversizedFrame(n) => "oversized frame: "@ + dec(n as nat)
                    + " bytes"@,
            }),
    {
        match self {
            ServerError::Io(m) => {
                let mut res = "io: ".to_owned();
                res.push_str(m.as_str());
                res
            },
            ServerError::OversizedFrame(n) => {
                let mut res = "oversized frame: ".to_owned();
                push_dec(&mut res, *n as u128);
                res.push_str(" bytes");
                res
            },
        }
    }
}

/// A tool that the server offers. The schema is a JSON text.
#[derive(Debug)]
pub struct ServedTool {
    pub name: String,
    pub description: String,
    pub input_schema: String,
}

/// The tools that are offered, and what the server says of itself.
#[derive(Debug)]
pub struct Server {
    pub tools: Vec<ServedTool>,
    pub name: String,
    pub version: String,
}

/// What a line leads to.
#[derive(Debug)]
pub enum Answer {
    /// Nothing is answered.
    Silent,
    /// This line is answered.
    Line(String),
    /// The tool in this place has to be run on these arguments; `finish_call` makes the
    /// answer of what it gives.
    Run { id: i64, tool: usize, args: String },
}

/// Mathematical form of an `Answer`.
pub enum Said {
    Silent,
    Line(Seq<char>),
    Run { id: int, tool: int, args: Seq<char> },
}

impl View for Answer {
    type V = Said;

    open spec fn view(&self) -> Said {
        match *self {
            Answer::Silent => Said::Silent,
            Answer::Line(l) => Said::Line(l@),
            Answer::Run { id, tool, args } => Said::Run {
                id: id as int,
                tool: tool as int,
                args: args@,
            },
        }
    }
}

// ---------------------------------------------------------------------------------
// Responses
// ---------------------------------------------------------------------------------
/// A response.
pub open spec fn response(id: Seq<char>, kind: Seq<char>, value: Seq<char>) -> Seq<char> {
    raw_obj(seq![("jsonrpc"@, str_text("2.0"@)), ("id"@, id), (kind, value)])
}

/// A response with an error.
pub open spec fn error_text(id: Seq<char>, code: int, message: Seq<char>) -> Seq<char> {
    response(
        id,
        "error"@,
        raw_obj(seq![("code"@, signed_dec(code)), ("message"@, str_text(message))]),
    )
}

/// One block of text.
pub open spec fn content(t: Seq<char>) -> Seq<char> {
    raw_arr(seq![raw_obj(seq![("type"@, str_text("text"@)), ("text"@, str_text(t))])])
}

/// The response to a call that went well.
pub open spec fn success_text(id: int, t: Seq<char>) -> Seq<char> {
    response(signed_dec(id), "result"@, raw_obj(seq![("content"@, content(t))]))
}

/// The response to a call that failed: a result that is marked as an error.
pub open spec fn failure_text(id: int, t: Seq<char>) -> Seq<char> {
    response(
        signed_dec(id),
        "result"@,
        raw_obj(seq![("content"@, content(t)), ("isError"@, "true"@)]),
    )
}

/// The response to `initialize`.
pub open spec fn init_text(id: int, name: Seq<char>, version: Seq<char>) -> Seq<char> {
    response(
        signed_dec(id),
        "result"@,
        raw_obj(
            seq![
                ("protocolVersion"@, str_text(protocol_version())),
                ("capabilities"@, raw_obj(seq![("tools"@, raw_obj(Seq::empty()))])),
                (
                    "serverInfo"@,
                    raw_obj(seq![("name"@, str_text(name)), ("version"@, str_text(version))]),
                ),
            ],
        ),
    )
}

/// A tool as the catalog tells of it.
pub open spec fn tool_text(t: ServedTool) -> Seq<char> {
    raw_obj(
        seq![
            ("name"@, str_text(t.name@)),
            ("description"@, str_text(t.description@)),
            ("inputSchema"@, t.input_schema@),
        ],
    )
}

/// The response to `tools/list`.
pub open spec fn list_text(id: int, tools: Seq<ServedTool>) -> Seq<char> {
    response(
        signed_dec(id),
        "result"@,
        raw_obj(
            seq![("tools"@, raw_arr(Seq::new(tools.len(), |i: int| tool_text(tools[i]))))],
        ),
    )
}

fn write_response(id: String, kind: &str, value: String) -> (res: String)
    ensures
        res@ == response(id@, kind@, value@),
{
    let mut o: Vec<(&str, String)> = Vec::new();
    o.push(("jsonrpc", str_json("2.0")));
    o.push(("id", id));
    o.push((kind, value));
    proof {
        assert(raw_members(o@) =~= seq![
            ("jsonrpc"@, str_text("2.0"@)),
            ("id"@, id@),
            (kind@, value@),
        ]);
    }
    object_json(&o)
}

fn id_text(id: i64) -> (res: String)
    ensures
        res@ == signed_dec(id as int),
{
    let mut s = String::new();
    push_signed(&mut s, id);
    proof {
        assert(s@ =~= signed_dec(id as int));
    }
    s
}

fn write_error(id: String, code: i64, message: &str) -> (res: String)
    ensures
        res@ == error_text(id@, code as int, message@),
{
    let mut o: Vec<(&str, String)> = Vec::new();
    o.push(("code", id_text(code)));
    o.push(("message", str_json(message)));
    proof {
        assert(raw_members(o@) =~= seq![
            ("code"@, signed_dec(code as int)),
            ("message"@, str_text(message@)),
        ]);
    }
    write_response(id, "error", object_json(&o))
}

fn error_response(id: i64, code: i64, message: &str) -> (res: String)
    ensures
        res@ == error_text(signed_dec(id as int), code as int, message@),
{
    write_error(id_text(id), code, message)
}

fn error_response_null(code: i64, message: &str) -> (res: String)
    ensures
        res@ == error_text("null"@, code as int, message@),
{
    write_error("null".to_owned(), code, message)
}

fn write_content(t: &str) -> (res: String)
    ensures
        res@ == content(t@),
{
    let mut o: Vec<(&str, String)> = Vec::new();
    o.push(("type", str_json("text")));
    o.push(("text", str_json(t)));
    proof {
        assert(raw_members(o@) =~= seq![("type"@, str_text("text"@)), ("text"@, str_text(t@))]);
    }
    let mut a: Vec<String> = Vec::new();
    a.push(object_json(&o));
    proof {
        assert(texts(a@) =~= seq![
            raw_obj(seq![("type"@, str_text("text"@)), ("text"@, str_text(t@))]),
        ]);
    }
    array_json(&a)
}

fn success_text_response(id: i64, t: &str) -> (res: String)
    ensures
        res@ == success_text(id as int, t@),
{
    let mut o: Vec<(&str, String)> = Vec::new();
    o.push(("content", write_content(t)));
    proof {
        assert(raw_members(o@) =~= seq![("content"@, content(t@))]);
    }
    write_response(id_text(id), "result", object_json(&o))
}

fn tool_error_response(id: i64, t: &str) -> (res: String)
    ensures
        res@ == failure_text(id as int, t@),
{
    let mut o: Vec<(&str, String)> = Vec::new();
    o.push(("content", write_content(t)));
    o.push(("isError", "true".to_owned()));
    proof {
        assert(raw_members(o@) =~= seq![("content"@, content(t@)), ("isError"@, "true"@)]);
    }
    write_response(id_text(id), "result", object_json(&o))
}

// ---------------------------------------------------------------------------------
// Requests
// ---------------------------------------------------------------------------------
/// The id of a request, where it is a whole number.
pub open spec fn request_id(v: Val) -> Option<int> {
    match member(v, "id"@) {
        Some(Val::Num(n)) => signed_value(n, i64::MIN as int, i64::MAX as int),
        _ => None,
    }
}

/// The first tool from place `i` on with a name, or the number of tools.
pub open spec fn tool_place(tools: Seq<ServedTool>, name: Seq<char>, i: int) -> int
    decreases tools.len() - i,
{
    if i >= tools.len() {
        tools.len() as int
    } else if tools[i].name@ == name {
        i
    } else {
        tool_place(tools, name, i + 1)
    }
}

/// What `tools/call` is answered.
pub open spec fn call_answer(tools: Seq<ServedTool>, id: int, v: Val) -> Said {
    match member(v, "params"@) {
        None => Said::Line(error_text(signed_dec(id), -32602, "missing params"@)),
        Some(p) => match member_str(p, "name"@) {
            None => Said::Line(error_text(signed_dec(id), -32602, "missing tool name"@)),
            Some(name) => {
                let k = tool_place(tools, name, 0);
                if k >= tools.len() {
                    Said::Line(failure_text(id, "unknown tool: "@ + name))
                } else {
                    Said::Run {
                        id,
                        tool: k,
                        args: match member(p, "arguments"@) {
                            Some(a) => text(a),
                            None => "{}"@,
                        },
                    }
                }
            },
        },
    }
}

/// What a request is answered.
pub open spec fn request_answer(s: Server, method: Seq<char>, id: int, v: Val) -> Said {
    if method == "initialize"@ {
        Said::Line(init_text(id, s.name@, s.version@))
    } else if method == "tools/list"@ {
        Said::Line(list_text(id, s.tools@))
    } else if method == "tools/call"@ {
        call_answer(s.tools@, id, v)
    } else {
        Said::Line(error_text(signed_dec(id), -32601, "method not found: "@ + method))
    }
}

/// What a line is answered. Without an id there is nobody to answer, unless the line is no
/// JSON at all.
pub open spec fn line_answer(s: Server, line: Seq<u8>) -> Said {
    match parsed(line) {
        None => Said::Line(
            error_text("null"@, -32700, "parse error: "@ + "invalid response: invalid JSON"@),
        ),
        Some(v) => match member_str(v, "method"@) {
            Some(method) => match request_id(v) {
                Some(id) => request_answer(s, method, id, v),
                None => Said::Silent,
            },
            None => match request_id(v) {
                Some(id) => Said::Line(
                    error_text(signed_dec(id), -32600, "invalid request: no method"@),
                ),
                None => Said::Silent,
            },
        },
    }
}

/// What the outcome of a call is answered.
pub open spec fn outcome_text(id: int, r: Result<Seq<char>, Seq<char>>) -> Seq<char> {
    match r {
        Ok(t) => success_text(id, t),
        Err(m) => failure_text(id, m),
    }
}

impl Server {
    pub fn new(name: &str, version: &str) -> (res: Self)
        ensures
            res.tools@.len() == 0,
            res.name@ == name@,
            res.version@ == version@,
    {
        Server { tools: Vec::new(), name: name.to_owned(), version: version.to_owned() }
    }

    /// Offers one more tool.
    pub fn register(&mut self, tool: ServedTool)
        ensures
            final(self).tools@ == old(self).tools@.push(tool),
            final(self).name == old(self).name,
            final(self).version == old(self).version,
    {
        self.tools.push(tool);
    }

    /// Offers one more tool.
    pub fn with_tool(self, tool: ServedTool) -> (res: Self)
        ensures
            res.tools@ == self.tools@.push(tool),
            res.name == self.name,
            res.version == self.version,
    {
        let mut s = self;
        s.register(tool);
        s
    }

    fn handle_initialize(&self, id: i64) -> (res: String)
        ensures
            res@ == init_text(id as int, self.name@, self.version@),
    {
        let none: Vec<(&str, String)> = Vec::new();
        let mut caps: Vec<(&str, String)> = Vec::new();
        caps.push(("tools", object_json(&none)));
        let mut info: Vec<(&str, String)> = Vec::new();
        info.push(("name", str_json(self.name.as_str())));
        info.push(("version", str_json(self.version.as_str())));
        proof {
            assert(raw_members(none@) =~= Seq::<(Seq<char>, Seq<char>)>::empty());
            assert(raw_members(caps@) =~= seq![("tools"@, raw_obj(Seq::empty()))]);
            assert(raw_members(info@) =~= seq![
                ("name"@, str_text(self.name@)),
                ("version"@, str_text(self.version@)),
            ]);
        }
        let mut o: Vec<(&str, String)> = Vec::new();
        o.push(("protocolVersion", str_json("2024-11-05")));
        o.push(("capabilities", object_json(&caps)));
        o.push(("serverInfo", object_json(&info)));
        proof {
            assert(raw_members(o@) =~= seq![
                ("protocolVersion"@, str_text(protocol_version())),
                ("capabilities"@, raw_obj(raw_members(caps@))),
                ("serverInfo"@, raw_obj(raw_members(info@))),
            ]);
        }
        write_response(id_text(id), "result", object_json(&o))
    }

    fn handle_tools_list(&self, id: i64) -> (res: String)
        ensures
            res@ == list_text(id as int, self.tools@),
    {
        let mut parts: Vec<String> = Vec::new();
        let mut i: usize = 0;
        while i < self.tools.len()
            invariant
                i <= self.tools@.len(),
                parts@.len() == i,
                forall|k: int| 0 <= k < i ==> (#[trigger] parts@[k])@ == tool_text(self.tools@[k]),
            decreases self.tools.len() - i,
        {
            let t = &self.tools[i];
            let mut o: Vec<(&str, String)> = Vec::new();
            o.push(("name", str_json(t.name.as_str())));
            o.push(("description", str_json(t.description.as_str())));
            o.push(("inputSchema", t.input_schema.clone()));
            proof {
                assert(raw_members(o@) =~= seq![
                    ("name"@, str_text(t.name@)),
                    ("description"@, str_text(t.description@)),
                    ("inputSchema"@, t.input_schema@),
                ]);
            }
            parts.push(object_json(&o));
            i += 1;
        }
        proof {
            assert(texts(parts@) =~= Seq::new(
                self.tools@.len(),
                |k: int| tool_text(self.tools@[k]),
            ));
        }
        let mut o: Vec<(&str, String)> = Vec::new();
        o.push(("tools", array_json(&parts)));
        proof {
            assert(raw_members(o@) =~= seq![("tools"@, raw_arr(texts(parts@)))]);
        }
        write_response(id_text(id), "result", object_json(&o))
    }

    fn handle_tools_call(&self, id: i64, v: &Json) -> (res: Answer)
        ensures
            res@ == call_answer(self.tools@, id as int, v@),
    {
        let params = match v.get("params") {
            Some(p) => p,
            None => {
                return Answer::Line(error_response(id, -32602, "missing params"));
            },
        };
        let name = match params.get_str("name") {
            Some(n) => n,
            None => {
                return Answer::Line(error_response(id, -32602, "missing tool name"));
            },
        };
        let mut k: usize = 0;
        while k < self.tools.len() && !text_eq(self.tools[k].name.as_str(), name)
            invariant
                k <= self.tools@.len(),
                tool_place(self.tools@, name@, 0) == tool_place(self.tools@, name@, k as int),
            decreases self.tools.len() - k,
        {
            k += 1;
        }
        if k >= self.tools.len() {
            let mut m = "unknown tool: ".to_owned();
            m.push_str(name);
            return Answer::Line(tool_error_response(id, m.as_str()));
        }
        let args = match params.get("arguments") {
            Some(a) => json_to_string(a),
            None => "{}".to_owned(),
        };
        Answer::Run { id, tool: k, args }
    }

    fn handle_request(&self, method: &str, id: i64, v: &Json) -> (res: Answer)
        ensures
            res@ == request_answer(*self, method@, id as int, v@),
    {
        if text_eq(method, "initialize") {
            Answer::Line(self.handle_initialize(id))
        } else if text_eq(method, "tools/list") {
            Answer::Line(self.handle_tools_list(id))
        } else if text_eq(method, "tools/call") {
            self.handle_tools_call(id, v)
        } else {
            let mut m = "method not found: ".to_owned();
            m.push_str(method);
            Answer::Line(error_response(id, -32601, m.as_str()))
        }
    }

    /// What a line is answered.
    pub fn handle_line(&self, line: &[u8]) -> (res: Answer)
        ensures
            res@ == line_answer(*self, line@),
    {
        let v = match parse(line) {
            Ok(v) => v,
            Err(e) => {
                let mut m = "parse error: ".to_owned();
                m.push_str(e.message().as_str());
                return Answer::Line(error_response_null(-32700, m.as_str()));
            },
        };
        let id: Option<i64> = match v.get("id") {
            Some(Json::Num(n)) => parse_signed(n.as_str(), i64::MIN, i64::MAX),
            _ => None,
        };
        match v.get_str("method") {
            Some(method) => match id {
                Some(id) => self.handle_request(method, id, &v),
                None => Answer::Silent,
            },
            None => match id {
                Some(id) => Answer::Line(
                    error_response(id, -32600, "invalid request: no method"),
                ),
                None => Answer::Silent,
            },
        }
    }

    /// What the outcome of a call is answered.
    pub fn finish_call(&self, id: i64, outcome: &Result<String, String>) -> (res: String)
        ensures
            res@ == outcome_text(
                id as int,
                match *outcome {
                    Ok(t) => Ok(t@),
                    Err(m) => Err(m@),
                },
            ),
    {
        match outcome {
            Ok(t) => success_text_response(id, t.as_str()),
            Err(m) => tool_error_response(id, m.as_str()),
        }
    }
}

// ---------------------------------------------------------------------------------
// Serving
// ---------------------------------------------------------------------------------
/// A client's stream. At most `max` bytes of it are held.
#[derive(Debug)]
pub struct Stream {
    pub splitter: NdjsonSplitter,
    pub max: usize,
}

/// What a line of the stream leads to: a blank one to nothing.
pub open spec fn stream_answer(s: Server, line: Seq<u8>) -> Said {
    if blank(line) {
        Said::Silent
    } else {
        line_answer(s, line)
    }
}

/// The first of the lines from `i` on that is answered, or their number.
pub open spec fn first_loud(s: Server, ls: Seq<Seq<u8>>, i: int) -> int
    decreases ls.len() - i,
{
    if i >= ls.len() {
        ls.len() as int
    } else if !(stream_answer(s, ls[i]) is Silent) {
        i
    } else {
        first_loud(s, ls, i + 1)
    }
}

impl Stream {
    pub fn new(max: usize) -> (res: Self)
        ensures
            res.splitter@ == Seq::<u8>::empty(),
            res.max == max,
    {
        Stream { splitter: NdjsonSplitter::new(), max }
    }

    /// Takes in what was read, unless that would make the stream hold too much.
    pub fn push(&mut self, chunk: &[u8]) -> (res: Result<(), ServerError>)
        ensures
            final(self).max == old(self).max,
            if old(self).splitter@.len() + chunk@.len() > old(self).max {
                &&& res matches Err(ServerError::OversizedFrame(n)) && n == old(
                    self,
                ).splitter@.len()
                &&& final(self).splitter == old(self).splitter
            } else {
                &&& res is Ok
                &&& final(self).splitter@ == old(self).splitter@ + chunk@
            },
    {
        let held = self.splitter.remaining().len();
        if held > self.max || chunk.len() > self.max - held {
            return Err(ServerError::OversizedFrame(held));
        }
        self.splitter.push(chunk);
        Ok(())
    }

    /// Works off the lines that are complete, up to the first that is answered. `Silent`
    /// says that more has to be read.
    pub fn serve(&mut self, server: &Server) -> (res: Answer)
        ensures
            final(self).max == old(self).max,
            partial(final(self).splitter@) == partial(old(self).splitter@),
            ({
                let ls = lines(old(self).splitter@);
                let k = first_loud(*server, ls, 0);
                if k < ls.len() {
                    &&& res@ == stream_answer(*server, ls[k])
                    &&& lines(final(self).splitter@) == ls.skip(k + 1)
                } else {
                    &&& res is Silent
                    &&& lines(final(self).splitter@).len() == 0
                }
            }),
    {
        let ghost ls = lines(self.splitter@);
        let ghost all = partial(self.splitter@);
        let ghost mut k: int = 0;
        proof {
            assert(ls.skip(0) =~= ls);
        }
        loop
            invariant
                0 <= k <= ls.len(),
                ls == lines(old(self).splitter@),
                all == partial(old(self).splitter@),
                self.max == old(self).max,
                lines(self.splitter@) == ls.skip(k),
                partial(self.splitter@) == all,
                first_loud(*server, ls, 0) == first_loud(*server, ls, k),
            decreases ls.len() - k,
        {
            let ghost before = self.splitter@;
            match self.splitter.pop_line() {
                None => {
                    proof {
                        assert(ls.skip(k).len() == 0);
                    }
                    return Answer::Silent;
                },
                Some(line) => {
                    proof {
                        let rest = seq![line@] + lines(self.splitter@);
                        assert(ls.skip(k) == rest);
                        assert(rest.len() > 0 && rest[0] == line@);
                        assert(k < ls.len());
                        assert(ls[k] == ls.skip(k)[0]);
                        assert(ls.skip(k).drop_first() =~= ls.skip(k + 1));
                        assert(lines(self.splitter@) =~= ls.skip(k).drop_first());
                        assert(partial(before) == partial(self.splitter@));
                    }
                    if !is_blank(line.as_slice()) {
                        let a = server.handle_line(line.as_slice());
                        match a {
                            Answer::Silent => {},
                            _ => {
                                return a;
                            },
                        }
                    }
                    proof {
                        k = k + 1;
                    }
                },
            }
        }
    }
}

// ---------------------------------------------------------------------------------
// Laws
// ---------------------------------------------------------------------------------
/// The value that a response reads as.
pub open spec fn response_value(id: int, kind: Seq<char>, value: Val) -> Val {
    Val::Obj(
        seq![("jsonrpc"@, Val::Str("2.0"@)), ("id"@, Val::Num(signed_dec(id))), (kind, value)],
    )
}

proof fn lemma_keys()
    ensures
        "jsonrpc"@ != "id"@,
        "result"@ != "id"@,
        "error"@ != "id"@,
        "jsonrpc"@ != "result"@,
        "jsonrpc"@ != "error"@,
        "result"@ != "error"@,
        "type"@ != "text"@,
        "content"@ != "isError"@,
{
    reveal_strlit("jsonrpc");
    reveal_strlit("id");
    reveal_strlit("result");
    reveal_strlit("error");
    reveal_strlit("type");
    reveal_strlit("text");
    reveal_strlit("content");
    reveal_strlit("isError");
    assert("jsonrpc"@.len() == 7 && "id"@.len() == 2 && "result"@.len() == 6 && "error"@.len() == 5);
    assert("type"@[1] == 'y' && "text"@[1] == 'e');
    assert("content"@[0] == 'c' && "isError"@[0] == 'i');
}

/// Every response to a request is a JSON text and carries the id of the request.
pub proof fn law_id_is_echoed(id: int, kind: Seq<char>, value: Seq<char>)
    requires
        i64::MIN <= id <= i64::MAX,
        kind == "result"@ || kind == "error"@,
        document(value) is Some,
    ensures
        document(response(signed_dec(id), kind, value)) == Some(
            response_value(id, kind, document(value)->0),
        ),
        request_id(response_value(id, kind, document(value)->0)) == Some(id),
        member(response_value(id, kind, document(value)->0), kind) == document(value),
{
    lemma_keys();
    let m = seq![("jsonrpc"@, str_text("2.0"@)), ("id"@, signed_dec(id)), (kind, value)];
    let o = seq![
        ("jsonrpc"@, Val::Str("2.0"@)),
        ("id"@, Val::Num(signed_dec(id))),
        (kind, document(value)->0),
    ];
    lemma_string("2.0"@);
    lemma_signed_number(id, i64::MIN as int, i64::MAX as int);
    lemma_number(signed_dec(id));
    assert forall|i: int| 0 <= i < o.len() implies (#[trigger] m[i]).0 == o[i].0 && document(m[i].1)
        == Some(o[i].1) by {}
    lemma_object(m, o);
    reveal_with_fuel(member_from, 4);
}

proof fn lemma_content(t: Seq<char>)
    ensures
        document(content(t)) == Some(
            Val::Arr(
                seq![Val::Obj(seq![("type"@, Val::Str("text"@)), ("text"@, Val::Str(t))])],
            ),
        ),
{
    let m = seq![("type"@, str_text("text"@)), ("text"@, str_text(t))];
    let o = seq![("type"@, Val::Str("text"@)), ("text"@, Val::Str(t))];
    lemma_string("text"@);
    lemma_string(t);
    assert forall|i: int| 0 <= i < o.len() implies (#[trigger] m[i]).0 == o[i].0 && document(m[i].1)
        == Some(o[i].1) by {}
    lemma_object(m, o);
    lemma_array(seq![raw_obj(m)], seq![Val::Obj(o)]);
}

/// A line that begins with a brace is not blank, and as bytes it reads as the text does.
proof fn lemma_line(s: Seq<char>)
    requires
        s.len() > 0,
        s[0] == '{',
    ensures
        parsed(encode_utf8(s)) == document(s),
        !blank(encode_utf8(s)),
{
    encode_utf8_valid_utf8(s);
    encode_utf8_decode_utf8(s);
    let h = seq!['{'];
    assert(s =~= h + s.drop_first());
    lemma_encode_concat(h, s.drop_first());
    assert(is_ascii_chars(h));
    is_ascii_chars_encode_utf8(h);
    assert(encode_utf8(s)[0] == encode_utf8(h)[0]);
    assert(encode_utf8(h)[0] == 0x7b);
}

proof fn lemma_heard(id: int, value: Seq<char>)
    requires
        0 <= id <= i64::MAX,
        document(value) is Some,
    ensures
        heard(id as nat, encode_utf8(response(signed_dec(id), "result"@, value))) == Heard::Answer(
            response_value(id, "result"@, document(value)->0),
        ),
        member(response_value(id, "result"@, document(value)->0), "result"@) == document(value),
{
    let s = response(signed_dec(id), "result"@, value);
    law_id_is_echoed(id, "result"@, value);
    lemma_signed_number(id, 0, u64::MAX as int);
    lemma_keys();
    assert(s.len() > 0 && s[0] == '{') by {
        reveal(raw_obj);
    }
    lemma_line(s);
    reveal_with_fuel(member_from, 4);
}

/// What a tool gives, the client that called it gets: the server's answer to a call reads
/// as the text of the outcome, and as an error if the tool failed.
pub proof fn law_client_reads_outcome(id: int, r: Result<Seq<char>, Seq<char>>, line: Vec<u8>)
    requires
        0 <= id <= i64::MAX,
        line@ == encode_utf8(outcome_text(id, r)),
    ensures
        call_event(id as nat, Event::Line(line)) == Some(
            match r {
                Ok(t) => Ok::<Seq<char>, Mishap>(t),
                Err(m) => Err(Mishap::Server { code: 0, message: m }),
            },
        ),
{
    let t = match r {
        Ok(t) => t,
        Err(m) => m,
    };
    lemma_keys();
    lemma_content(t);
    let c = document(content(t))->0;
    let b = Val::Obj(seq![("type"@, Val::Str("text"@)), ("text"@, Val::Str(t))]);
    assert(c == Val::Arr(seq![b]));
    reveal_with_fuel(member_from, 4);
    reveal_with_fuel(block_text, 2);
    assert(block_text(seq![b], 1) == t);
    match r {
        Ok(_) => {
            let m = seq![("content"@, content(t))];
            let o = seq![("content"@, c)];
            lemma_object(m, o);
            lemma_heard(id, raw_obj(m));
            assert(result_text(Val::Obj(o)) == Ok::<Seq<char>, Seq<char>>(t));
        },
        Err(_) => {
            let m = seq![("content"@, content(t)), ("isError"@, "true"@)];
            let o = seq![("content"@, c), ("isError"@, Val::Bool(true))];
            lemma_true();
            assert forall|i: int| 0 <= i < o.len() implies (#[trigger] m[i]).0 == o[i].0
                && document(m[i].1) == Some(o[i].1) by {}
            lemma_object(m, o);
            lemma_heard(id, raw_obj(m));
            assert(result_text(Val::Obj(o)) == Ok::<Seq<char>, Seq<char>>(t));
        },
    }
}

proof fn lemma_place(tools: Seq<ServedTool>, name: Seq<char>, i: int)
    requires
        0 <= i <= tools.len(),
    ensures
        i <= tool_place(tools, name, i) <= tools.len(),
        tool_place(tools, name, i) < tools.len() ==> tools[tool_place(tools, name, i)].name@ == name,
        forall|j: int|
            i <= j < tool_place(tools, name, i) ==> (#[trigger] tools[j]).name@ != name,
    decreases tools.len() - i,
{
    if i < tools.len() && tools[i].name@ != name {
        lemma_place(tools, name, i + 1);
    }
}

proof fn lemma_methods()
    ensures
        "initialize"@.len() == 10 && "initialize"@[0] == 'i',
        "tools/list"@.len() == 10 && "tools/list"@[0] == 't' && "tools/list"@[6] == 'l',
        "tools/call"@.len() == 10 && "tools/call"@[0] == 't' && "tools/call"@[6] == 'c',
{
    reveal_strlit("initialize");
    reveal_strlit("tools/list");
    reveal_strlit("tools/call");
}

/// A call runs the first tool that has the name it asks for, with its arguments, and under its
/// id. A tool that is not there is told as a failed call.
pub proof fn law_call_runs_the_named_tool(
    s: Server,
    line: Seq<u8>,
    v: Val,
    p: Val,
    id: int,
    name: Seq<char>,
    n: Seq<char>,
)
    requires
        parsed(line) == Some(v),
        member_str(v, "method"@) == Some("tools/call"@),
        member(v, "id"@) == Some(Val::Num(n)),
        signed_value(n, i64::MIN as int, i64::MAX as int) == Some(id),
        member(v, "params"@) == Some(p),
        member_str(p, "name"@) == Some(name),
    ensures
        match line_answer(s, line) {
            Said::Run { id: i, tool, args } => {
                &&& i == id
                &&& 0 <= tool < s.tools@.len()
                &&& s.tools@[tool].name@ == name
                &&& forall|j: int| 0 <= j < tool ==> (#[trigger] s.tools@[j]).name@ != name
                &&& args == (match member(p, "arguments"@) {
                    Some(a) => text(a),
                    None => "{}"@,
                })
            },
            Said::Line(l) => {
                &&& forall|j: int| 0 <= j < s.tools@.len() ==> (#[trigger] s.tools@[j]).name@ != name
                &&& l == failure_text(id, "unknown tool: "@ + name)
            },
            Said::Silent => false,
        },
{
    lemma_methods();
    lemma_place(s.tools@, name, 0);
}

/// A request is answered by its method: `initialize` with what the server is, `tools/list` with its
/// tools, and a method that it does not know with the error for that. What has no id is not
/// answered, and a line that is no JSON text is an error without one.
pub proof fn law_requests_by_their_method(
    s: Server,
    line: Seq<u8>,
    v: Val,
    id: int,
    n: Seq<char>,
    method: Seq<char>,
)
    requires
        parsed(line) == Some(v),
    ensures
        member(v, "id"@) is None ==> line_answer(s, line) is Silent,
        member(v, "id"@) == Some(Val::Num(n)) && signed_value(n, i64::MIN as int, i64::MAX as int)
            == Some(id) ==> {
            &&& member_str(v, "method"@) == Some("initialize"@) ==> line_answer(s, line) == Said::Line(
                init_text(id, s.name@, s.version@),
            )
            &&& member_str(v, "method"@) == Some("tools/list"@) ==> line_answer(s, line) == Said::Line(
                list_text(id, s.tools@),
            )
            &&& member_str(v, "method"@) == Some(method) && method != "initialize"@ && method
                != "tools/list"@ && method != "tools/call"@ ==> line_answer(s, line) == Said::Line(
                error_text(signed_dec(id), -32601, "method not found: "@ + method),
            )
            &&& member_str(v, "method"@) is None ==> line_answer(s, line) == Said::Line(
                error_text(signed_dec(id), -32600, "invalid request: no method"@),
            )
        },
        forall|other: Seq<u8>|
            parsed(other) is None ==> #[trigger] line_answer(s, other) == Said::Line(
                error_text("null"@, -32700, "parse error: invalid response: invalid JSON"@),
            ),
{
    lemma_methods();
    reveal_strlit("parse error: ");
    reveal_strlit("invalid response: invalid JSON");
    reveal_strlit("parse error: invalid response: invalid JSON");
    assert("parse error: "@ + "invalid response: invalid JSON"@
        =~= "parse error: invalid response: invalid JSON"@);
}

/// An error reads as one: its id, its code and its text.
pub proof fn law_error_reads_back(id: int, code: int, message: Seq<char>)
    requires
        i64::MIN <= id <= i64::MAX,
        i64::MIN <= code <= i64::MAX,
    ensures
        document(error_text(signed_dec(id), code, message)) matches Some(v) && request_id(v) == Some(id)
            && (member(v, "error"@) matches Some(e) && member(e, "code"@) == Some(
            Val::Num(signed_dec(code)),
        ) && member_str(e, "message"@) == Some(message)) && member(v, "result"@) is None,
{
    let m = seq![("code"@, signed_dec(code)), ("message"@, str_text(message))];
    let o = seq![("code"@, Val::Num(signed_dec(code))), ("message"@, Val::Str(message))];
    lemma_string(message);
    lemma_signed_number(code, i64::MIN as int, i64::MAX as int);
    lemma_number(signed_dec(code));
    assert forall|i: int| 0 <= i < o.len() implies (#[trigger] m[i]).0 == o[i].0 && document(m[i].1)
        == Some(o[i].1) by {}
    lemma_object(m, o);
    law_id_is_echoed(id, "error"@, raw_obj(m));
    lemma_keys();
    reveal_strlit("code");
    reveal_strlit("message");
    assert("code"@.len() == 4 && "message"@.len() == 7);
    reveal_with_fuel(member_from, 4);
}

/// The answer to `initialize` tells the protocol, and the name and the version of the server.
pub proof fn law_greeting_reads_back(id: int, name: Seq<char>, version: Seq<char>)
    requires
        i64::MIN <= id <= i64::MAX,
    ensures
        document(init_text(id, name, version)) matches Some(v) && request_id(v) == Some(id) && (member(
            v,
            "result"@,
        ) matches Some(r) && member_str(r, "protocolVersion"@) == Some("2024-11-05"@) && (member(
            r,
            "serverInfo"@,
        ) matches Some(i) && member_str(i, "name"@) == Some(name) && member_str(i, "version"@) == Some(
            version,
        )) && (member(r, "capabilities"@) matches Some(c) && member(c, "tools"@) is Some)),
{
    lemma_string("2024-11-05"@);
    lemma_string(name);
    lemma_string(version);
    let none: Seq<(Seq<char>, Seq<char>)> = Seq::empty();
    lemma_object(none, Seq::empty());
    let ct = seq![("tools"@, raw_obj(none))];
    let cv = seq![("tools"@, Val::Obj(Seq::empty()))];
    lemma_object(ct, cv);
    let it = seq![("name"@, str_text(name)), ("version"@, str_text(version))];
    let iv = seq![("name"@, Val::Str(name)), ("version"@, Val::Str(version))];
    assert forall|i: int| 0 <= i < iv.len() implies (#[trigger] it[i]).0 == iv[i].0 && document(
        it[i].1,
    ) == Some(iv[i].1) by {}
    lemma_object(it, iv);
    let m = seq![
        ("protocolVersion"@, str_text("2024-11-05"@)),
        ("capabilities"@, raw_obj(ct)),
        ("serverInfo"@, raw_obj(it)),
    ];
    let o = seq![
        ("protocolVersion"@, Val::Str("2024-11-05"@)),
        ("capabilities"@, Val::Obj(cv)),
        ("serverInfo"@, Val::Obj(iv)),
    ];
    assert forall|i: int| 0 <= i < o.len() implies (#[trigger] m[i]).0 == o[i].0 && document(m[i].1)
        == Some(o[i].1) by {}
    lemma_object(m, o);
    law_id_is_echoed(id, "result"@, raw_obj(m));
    reveal_strlit("protocolVersion");
    reveal_strlit("capabilities");
    reveal_strlit("serverInfo");
    reveal_strlit("name");
    reveal_strlit("version");
    assert("protocolVersion"@.len() == 15 && "capabilities"@.len() == 12 && "serverInfo"@.len() == 10
        && "name"@.len() == 4 && "version"@.len() == 7);
    reveal_with_fuel(member_from, 4);
}

/// The tools that a server offers are those that a client finds in its catalog: all of them, in
/// their order, with their names, descriptions and schemas.
pub proof fn law_client_reads_catalog(id: int, tools: Seq<ServedTool>)
    requires
        i64::MIN <= id <= i64::MAX,
        forall|i: int| 0 <= i < tools.len() ==> document((#[trigger] tools[i]).input_schema@) is Some,
    ensures
        document(list_text(id, tools)) matches Some(v) && request_id(v) == Some(id) && (member(
            v,
            "result"@,
        ) matches Some(r) && (member(r, "tools"@) matches Some(Val::Arr(a)) && a.len() == tools.len()
            && (forall|i: int|
            0 <= i < a.len() ==> member_str(#[trigger] a[i], "name"@) == Some(tools[i].name@)
                && member_str(a[i], "description"@) == Some(tools[i].description@) && member(
                a[i],
                "inputSchema"@,
            ) == document(tools[i].input_schema@)))),
{
    let tt = Seq::new(tools.len(), |i: int| tool_text(tools[i]));
    let tv = Seq::new(tools.len(), |i: int| document(tt[i])->0);
    assert forall|i: int| 0 <= i < tv.len() implies document(#[trigger] tt[i]) == Some(tv[i])
        && member_str(tv[i], "name"@) == Some(tools[i].name@) && member_str(tv[i], "description"@)
        == Some(tools[i].description@) && member(tv[i], "inputSchema"@) == document(
        tools[i].input_schema@,
    ) by {
        lemma_tool(tools[i]);
    }
    lemma_array(tt, tv);
    let m = seq![("tools"@, raw_arr(tt))];
    let o = seq![("tools"@, Val::Arr(tv))];
    lemma_object(m, o);
    law_id_is_echoed(id, "result"@, raw_obj(m));
    reveal_with_fuel(member_from, 2);
    assert forall|i: int| 0 <= i < tv.len() implies member_str(#[trigger] tv[i], "name"@) == Some(
        tools[i].name@,
    ) && member_str(tv[i], "description"@) == Some(tools[i].description@) && member(
        tv[i],
        "inputSchema"@,
    ) == document(tools[i].input_schema@) by {
        assert(document(tt[i]) == Some(tv[i]));
    }
}

proof fn lemma_tool(t: ServedTool)
    requires
        document(t.input_schema@) is Some,
    ensures
        document(tool_text(t)) matches Some(v) && member_str(v, "name"@) == Some(t.name@) && member_str(
            v,
            "description"@,
        ) == Some(t.description@) && member(v, "inputSchema"@) == document(t.input_schema@),
{
    lemma_string(t.name@);
    lemma_string(t.description@);
    let m = seq![
        ("name"@, str_text(t.name@)),
        ("description"@, str_text(t.description@)),
        ("inputSchema"@, t.input_schema@),
    ];
    let o = seq![
        ("name"@, Val::Str(t.name@)),
        ("description"@, Val::Str(t.description@)),
        ("inputSchema"@, document(t.input_schema@)->0),
    ];
    assert forall|i: int| 0 <= i < o.len() implies (#[trigger] m[i]).0 == o[i].0 && document(m[i].1)
        == Some(o[i].1) by {}
    lemma_object(m, o);
    reveal_strlit("name");
    reveal_strlit("description");
    reveal_strlit("inputSchema");
    assert("name"@.len() == 4 && "description"@.len() == 11 && "inputSchema"@.len() == 11);
    assert("description"@[0] == 'd' && "inputSchema"@[0] == 'i');
    reveal_with_fuel(member_from, 4);
}

/// Blank lines are skipped, and of the others the first that is to be answered comes first.
pub proof fn law_first_loud_line(s: Server, ls: Seq<Seq<u8>>, i: int)
    requires
        0 <= i <= ls.len(),
    ensures
        ({
            let k = first_loud(s, ls, i);
            &&& i <= k <= ls.len()
            &&& k < ls.len() ==> !(stream_answer(s, ls[k]) is Silent)
            &&& forall|j: int| i <= j < k ==> stream_answer(s, #[trigger] ls[j]) is Silent
        }),
        forall|l: Seq<u8>|
            !blank(l) ==> #[trigger] stream_answer(s, l) == line_answer(s, l),
        forall|l: Seq<u8>| blank(l) ==> #[trigger] stream_answer(s, l) is Silent,
    decreases ls.len() - i,
{
    if i < ls.len() && stream_answer(s, ls[i]) is Silent {
        law_first_loud_line(s, ls, i + 1);
    }
}

} // verus!
