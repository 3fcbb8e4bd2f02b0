//! HTTP server for agents: `POST /agents/<name>/<id>`, answered with Server-Sent Events.
//!
//! A request is read piece by piece as it arrives. Sockets and threads are the caller's
//! part.

use vstd::prelude::*;
use vstd::utf8::*;

use crate::table::Table;
use crate::text::{
    bytes_copy, chars_of, dec, find_char, lemma_seek_char, parse_unsigned, push_bytes, push_dec,
    push_text, seek_char, starts_with, text_eq, text_of, trim, trimmed, unsigned_value,
};
use crate::wire::scan::{find, lemma_find, lemma_seek, seek, seek_byte, stands_at};
use crate::wire::sse::{data_from, data_mark, frames, gap, line_data, more_data, partial};

verus! {

/// Largest body: 1 MiB.
pub const MAX_BODY: usize = 0x10_0000;

/// Number of bytes after which a line that has not ended is given up.
pub const MAX_HEADER_LINE: usize = 8192;

/// Largest number of headers.
pub const MAX_HEADERS: usize = 64;

// ---------------------------------------------------------------------------------
// Events
// ---------------------------------------------------------------------------------
/// Takes the events of an answer.
#[derive(Debug)]
pub struct EventSink {
    pub out: Vec<u8>,
}

/// The lines of the data, each behind `data: `.
pub open spec fn data_lines(b: Seq<u8>) -> Seq<u8>
    decreases b.len(),
{
    let z = seek(b, 0, 0x0a);
    let head = encode_utf8("data: "@) + b.take(z) + seq![0x0au8];
    if 0 <= z < b.len() {
        head + data_lines(b.skip(z + 1))
    } else {
        head
    }
}

/// The line that names an event, where it has a name.
pub open spec fn event_line(event: Option<Seq<u8>>) -> Seq<u8> {
    match event {
        Some(e) => encode_utf8("event: "@) + e + seq![0x0au8],
        None => Seq::empty(),
    }
}

/// An event as it is sent.
pub open spec fn event_frame(event: Option<Seq<u8>>, data: Seq<u8>) -> Seq<u8> {
    event_line(event) + data_lines(data) + seq![0x0au8]
}

/// The UTF-8 form of a text that may be missing.
pub open spec fn maybe_bytes(s: Option<&str>) -> Option<Seq<u8>> {
    match s {
        Some(t) => Some(encode_utf8(t@)),
        None => None,
    }
}

fn push_data(out: &mut Vec<u8>, data: &[u8])
    ensures
        final(out)@ == old(out)@ + data_lines(data@),
{
    let ghost start = out@;
    let mut from: usize = 0;
    proof {
        assert(data@.skip(0) =~= data@);
    }
    loop
        invariant_except_break
            out@ + data_lines(data@.skip(from as int)) == start + data_lines(data@),
        invariant
            from <= data.len(),
        ensures
            out@ == start + data_lines(data@),
        decreases data.len() - from,
    {
        let z = seek_byte(data, from, 0x0a);
        let ghost rest = data@.skip(from as int);
        let ghost o0 = out@;
        proof {
            lemma_seek(data@, from as int, 0x0a);
            lemma_seek(rest, 0, 0x0a);
            let w = seek(rest, 0, 0x0a);
            if w < z - from {
                assert(rest[w] == data@[from + w]);
            }
            if z - from < w {
                assert(rest[z - from] == data@[z as int]);
            }
            assert(w == z - from);
            assert(rest.take(w) =~= data@.subrange(from as int, z as int));
        }
        push_text(out, "data: ");
        push_bytes(out, vstd::slice::slice_subrange(data, from, z));
        out.push(0x0a);
        let ghost head = encode_utf8("data: "@) + rest.take(z - from) + seq![0x0au8];
        proof {
            assert(out@ =~= o0 + head);
        }
        if z >= data.len() {
            break;
        }
        proof {
            assert(rest.skip(z - from + 1) =~= data@.skip(z + 1));
            assert(out@ + data_lines(data@.skip(z + 1)) =~= o0 + data_lines(rest));
        }
        from = z + 1;
    }
}

impl EventSink {
    pub fn new() -> (res: Self)
        ensures
            res.out@ == Seq::<u8>::empty(),
    {
        EventSink { out: Vec::new() }
    }

    /// Sends an event. Every line of the data gets a line of its own.
    pub fn emit(&mut self, event: Option<&str>, data: &str)
        ensures
            final(self).out@ == old(self).out@ + event_frame(maybe_bytes(event), encode_utf8(data@)),
    {
        let ghost start = self.out@;
        if let Some(e) = event {
            push_text(&mut self.out, "event: ");
            push_text(&mut self.out, e);
            self.out.push(0x0a);
        }
        proof {
            assert(self.out@ =~= start + event_line(maybe_bytes(event)));
        }
        push_data(&mut self.out, data.as_bytes());
        self.out.push(0x0a);
        proof {
            assert(self.out@ =~= start + event_frame(maybe_bytes(event), encode_utf8(data@)));
        }
    }

    /// Sends an event without a name.
    pub fn emit_data(&mut self, data: &str)
        ensures
            final(self).out@ == old(self).out@ + event_frame(None, encode_utf8(data@)),
    {
        self.emit(None, data);
    }
}

// ---------------------------------------------------------------------------------
// Requests
// ---------------------------------------------------------------------------------
#[derive(Debug)]
pub struct Request {
    pub path: String,
    pub body: Vec<u8>,
}

/// Why a request is refused.
#[derive(Debug, Clone, Copy, PartialEq, Eq, Structural)]
pub enum ParseError {
    Malformed,
    MethodNotAllowed,
    TooLarge,
}

/// What is known of a request while its headers are read.
#[derive(Debug)]
pub struct Head {
    pub path: String,
    /// Number of headers.
    pub count: usize,
    /// The length of the body, where a header told it.
    pub length: Option<usize>,
}

/// A request that is being read.
#[derive(Debug)]
pub enum RequestReader {
    /// A line is being read: the first one, or a header.
    Line { head: Option<Head>, buf: Vec<u8> },
    /// The body is being read.
    Body { path: String, need: usize, got: Vec<u8> },
    Done(Request),
    Failed(ParseError),
}

/// Mathematical form of a `Head`.
pub struct HeadView {
    pub path: Seq<char>,
    pub count: int,
    pub length: Option<int>,
}

/// Mathematical form of a `RequestReader`.
pub enum Reading {
    Line { head: Option<HeadView>, buf: Seq<u8> },
    Body { path: Seq<char>, need: int, got: Seq<u8> },
    Done { path: Seq<char>, body: Seq<u8> },
    Failed(ParseError),
}

pub open spec fn length_view(n: Option<usize>) -> Option<int> {
    match n {
        Some(k) => Some(k as int),
        None => None,
    }
}

pub open spec fn head_view(h: Option<Head>) -> Option<HeadView> {
    match h {
        Some(x) => Some(
            HeadView { path: x.path@, count: x.count as int, length: length_view(x.length) },
        ),
        None => None,
    }
}

impl View for RequestReader {
    type V = Reading;

    open spec fn view(&self) -> Reading {
        match *self {
            RequestReader::Line { head, buf } => Reading::Line {
                head: head_view(head),
                buf: buf@,
            },
            RequestReader::Body { path, need, got } => Reading::Body {
                path: path@,
                need: need as int,
                got: got@,
            },
            RequestReader::Done(r) => Reading::Done { path: r.path@, body: r.body@ },
            RequestReader::Failed(e) => Reading::Failed(e),
        }
    }
}

pub open spec fn lower(c: char) -> char {
    if 'A' <= c <= 'Z' {
        ((c as u32) + 32) as char
    } else {
        c
    }
}

/// A text with its ASCII letters in lower case.
pub open spec fn lowered(s: Seq<char>) -> Seq<char> {
    Seq::new(s.len(), |i: int| lower(s[i]))
}

/// What the first line of a request leads to: its method, path and version.
pub open spec fn first_line(s: Seq<char>) -> Reading {
    let a = seek_char(s, 0, ' ');
    let b = seek_char(s, a + 1, ' ');
    if a >= s.len() || b >= s.len() {
        Reading::Failed(ParseError::Malformed)
    } else if !starts_with(s.skip(b + 1), "HTTP/1."@) {
        Reading::Failed(ParseError::Malformed)
    } else if s.take(a) != "POST"@ {
        Reading::Failed(ParseError::MethodNotAllowed)
    } else {
        Reading::Line {
            head: Some(HeadView { path: s.subrange(a + 1, b), count: 0, length: None }),
            buf: Seq::empty(),
        }
    }
}

/// What a header leads to.
pub open spec fn header_line(h: HeadView, s: Seq<char>) -> Reading {
    let z = seek_char(s, 0, ':');
    let name = lowered(trim(s.take(z)));
    let value = trim(s.skip(z + 1));
    if h.count + 1 > MAX_HEADERS {
        Reading::Failed(ParseError::Malformed)
    } else if z >= s.len() {
        Reading::Failed(ParseError::Malformed)
    } else if name == "content-length"@ {
        match unsigned_value(value, usize::MAX as nat) {
            None => Reading::Failed(ParseError::Malformed),
            Some(n) => if n > MAX_BODY {
                Reading::Failed(ParseError::TooLarge)
            } else {
                Reading::Line {
                    head: Some(
                        HeadView { path: h.path, count: h.count + 1, length: Some(n as int) },
                    ),
                    buf: Seq::empty(),
                }
            },
        }
    } else if name == "transfer-encoding"@ {
        Reading::Failed(ParseError::Malformed)
    } else {
        Reading::Line {
            head: Some(HeadView { path: h.path, count: h.count + 1, length: h.length }),
            buf: Seq::empty(),
        }
    }
}

/// What the end of the headers leads to.
pub open spec fn headers_end(h: HeadView) -> Reading {
    match h.length {
        Some(n) => if n > 0 {
            Reading::Body { path: h.path, need: n, got: Seq::empty() }
        } else {
            Reading::Done { path: h.path, body: Seq::empty() }
        },
        None => Reading::Done { path: h.path, body: Seq::empty() },
    }
}

/// A line without the carriage return at its end.
pub open spec fn cut_cr(line: Seq<u8>) -> Seq<u8> {
    if line.len() > 0 && line.last() == 0x0d {
        line.drop_last()
    } else {
        line
    }
}

/// What a whole line leads to.
pub open spec fn line_step(head: Option<HeadView>, line: Seq<u8>) -> Reading {
    let l = cut_cr(line);
    if !valid_utf8(l) {
        Reading::Failed(ParseError::Malformed)
    } else {
        let s = decode_utf8(l);
        match head {
            None => first_line(s),
            Some(h) => if s.len() == 0 {
                headers_end(h)
            } else {
                header_line(h, s)
            },
        }
    }
}

/// What a piece of a connection leads to.
pub open spec fn read_on(st: Reading, chunk: Seq<u8>) -> Reading
    decreases chunk.len(),
{
    match st {
        Reading::Line { head, buf } => {
            let z = seek(chunk, 0, 0x0a);
            if chunk.len() == 0 {
                st
            } else if 0 <= z < chunk.len() {
                read_on(line_step(head, buf + chunk.take(z)), chunk.skip(z + 1))
            } else if buf.len() + chunk.len() > MAX_HEADER_LINE {
                Reading::Failed(ParseError::Malformed)
            } else {
                Reading::Line { head, buf: buf + chunk }
            }
        },
        Reading::Body { path, need, got } => if got.len() + chunk.len() >= need {
            Reading::Done { path, body: got + chunk.take(need - got.len()) }
        } else {
            Reading::Body { path, need, got: got + chunk }
        },
        _ => st,
    }
}

pub open spec fn sound_head(h: HeadView) -> bool {
    &&& 0 <= h.count <= MAX_HEADERS
    &&& h.length matches Some(n) ==> 0 <= n <= MAX_BODY
}

/// Whether the numbers in a reader are in range.
pub open spec fn sound(st: Reading) -> bool {
    match st {
        Reading::Line { head, .. } => head matches Some(h) ==> sound_head(h),
        Reading::Body { need, got, .. } => got.len() < need <= MAX_BODY,
        _ => true,
    }
}

fn lower_eq(s: &str, word: &str) -> (res: bool)
    ensures
        res == (lowered(s@) == word@),
{
    let a = chars_of(s);
    let w = chars_of(word);
    if a.len() != w.len() {
        proof {
            assert(lowered(s@).len() != word@.len());
        }
        return false;
    }
    let mut i: usize = 0;
    while i < a.len()
        invariant
            i <= a@.len() == w@.len(),
            a@ == s@,
            w@ == word@,
            forall|k: int| 0 <= k < i ==> lowered(s@)[k] == #[trigger] word@[k],
        decreases a.len() - i,
    {
        let c: char = a[i];
        let l: char = if 'A' <= c && c <= 'Z' {
            ((c as u32 + 32) as u8) as char
        } else {
            c
        };
        proof {
            assert(l == lower(c));
            assert(lowered(s@)[i as int] == l);
        }
        if l != w[i] {
            return false;
        }
        i += 1;
    }
    proof {
        assert(lowered(s@) =~= word@);
    }
    true
}

fn take_first_line(s: &str) -> (res: RequestReader)
    ensures
        res@ == first_line(s@),
{
    let chars = chars_of(s);
    let c = chars.as_slice();
    let a = find_char(c, 0, ' ');
    if a >= c.len() {
        proof {
            lemma_seek_char(s@, 0, ' ');
        }
        return RequestReader::Failed(ParseError::Malformed);
    }
    let b = find_char(c, a + 1, ' ');
    if b >= c.len() {
        return RequestReader::Failed(ParseError::Malformed);
    }
    if !crate::text::begins(c, b + 1, "HTTP/1.") {
        return RequestReader::Failed(ParseError::Malformed);
    }
    let method = text_of(c, 0, a);
    proof {
        assert(method@ =~= s@.take(a as int));
    }
    if !text_eq(method.as_str(), "POST") {
        return RequestReader::Failed(ParseError::MethodNotAllowed);
    }
    let head = Head { path: text_of(c, a + 1, b), count: 0, length: None };
    let buf: Vec<u8> = Vec::new();
    proof {
        assert(buf@ =~= Seq::<u8>::empty());
    }
    RequestReader::Line { head: Some(head), buf }
}

fn take_header(h: Head, s: &str) -> (res: RequestReader)
    requires
        h.count <= MAX_HEADERS,
    ensures
        res@ == header_line(head_view(Some(h))->0, s@),
{
    if h.count + 1 > MAX_HEADERS {
        return RequestReader::Failed(ParseError::Malformed);
    }
    let chars = chars_of(s);
    let c = chars.as_slice();
    let z = find_char(c, 0, ':');
    if z >= c.len() {
        return RequestReader::Failed(ParseError::Malformed);
    }
    let name = trimmed(text_of(c, 0, z).as_str());
    let value = trimmed(text_of(c, z + 1, c.len()).as_str());
    proof {
        assert(s@.subrange(0, z as int) =~= s@.take(z as int));
        assert(s@.subrange(z + 1, s@.len() as int) =~= s@.skip(z + 1));
    }
    let buf: Vec<u8> = Vec::new();
    proof {
        assert(buf@ =~= Seq::<u8>::empty());
    }
    if lower_eq(name.as_str(), "content-length") {
        match parse_unsigned(value.as_str(), usize::MAX as u64) {
            None => RequestReader::Failed(ParseError::Malformed),
            Some(n) => {
                if n > MAX_BODY as u64 {
                    RequestReader::Failed(ParseError::TooLarge)
                } else {
                    let head = Head {
                        path: h.path,
                        count: h.count + 1,
                        length: Some(n as usize),
                    };
                    RequestReader::Line { head: Some(head), buf }
                }
            },
        }
    } else if lower_eq(name.as_str(), "transfer-encoding") {
        RequestReader::Failed(ParseError::Malformed)
    } else {
        let head = Head { path: h.path, count: h.count + 1, length: h.length };
        RequestReader::Line { head: Some(head), buf }
    }
}

fn take_line(head: Option<Head>, line: Vec<u8>) -> (res: RequestReader)
    requires
        head_view(head) matches Some(h) ==> sound_head(h),
    ensures
        res@ == line_step(head_view(head), line@),
        sound(res@),
{
    let mut line = line;
    let ghost l0 = line@;
    if line.len() > 0 && line[line.len() - 1] == 0x0d {
        let _ = line.pop();
    }
    proof {
        assert(line@ =~= cut_cr(l0));
    }
    match core::str::from_utf8(line.as_slice()) {
        Err(_) => RequestReader::Failed(ParseError::Malformed),
        Ok(s) => {
            proof {
                encode_utf8_decode_utf8(s@);
            }
            match head {
                None => take_first_line(s),
                Some(h) => {
                    if chars_of(s).len() > 0 {
                        return take_header(h, s);
                    }
                    let none: Vec<u8> = Vec::new();
                    proof {
                        assert(none@ =~= Seq::<u8>::empty());
                    }
                    match h.length {
                        Some(n) => {
                            if n > 0 {
                                RequestReader::Body { path: h.path, need: n, got: none }
                            } else {
                                RequestReader::Done(Request { path: h.path, body: none })
                            }
                        },
                        None => RequestReader::Done(Request { path: h.path, body: none }),
                    }
                },
            }
        },
    }
}

impl RequestReader {
    pub fn new() -> (res: Self)
        ensures
            res@ == (Reading::Line { head: None, buf: Seq::empty() }),
            sound(res@),
    {
        let buf: Vec<u8> = Vec::new();
        proof {
            assert(buf@ =~= Seq::<u8>::empty());
        }
        RequestReader::Line { head: None, buf }
    }

    /// Takes in the next piece.
    pub fn push(self, chunk: &[u8]) -> (res: Self)
        requires
            sound(self@),
        ensures
            res@ == read_on(self@, chunk@),
            sound(res@),
    {
        let mut st = self;
        let mut from: usize = 0;
        let ghost goal = read_on(self@, chunk@);
        proof {
            assert(chunk@.skip(0) =~= chunk@);
        }
        loop
            invariant
                from <= chunk.len(),
                sound(st@),
                goal == read_on(self@, chunk@),
                goal == read_on(st@, chunk@.skip(from as int)),
            decreases chunk.len() - from,
        {
            let ghost rest = chunk@.skip(from as int);
            match st {
                RequestReader::Line { head, buf } => {
                    if from >= chunk.len() {
                        let res = RequestReader::Line { head, buf };
                        return res;
                    }
                    let z = seek_byte(chunk, from, 0x0a);
                    let mut line = buf;
                    let piece = vstd::slice::slice_subrange(chunk, from, z);
                    let ghost b0 = line@;
                    push_bytes(&mut line, piece);
                    proof {
                        lemma_seek(chunk@, from as int, 0x0a);
                        lemma_seek(rest, 0, 0x0a);
                        let w = seek(rest, 0, 0x0a);
                        if w < z - from {
                            assert(rest[w] == chunk@[from + w]);
                        }
                        if z - from < w {
                            assert(rest[z - from] == chunk@[z as int]);
                        }
                        assert(w == z - from);
                        assert(piece@ =~= rest.take(w));
                    }
                    if z < chunk.len() {
                        proof {
                            assert(rest.skip(z - from + 1) =~= chunk@.skip(z + 1));
                        }
                        st = take_line(head, line);
                        from = z + 1;
                    } else {
                        proof {
                            assert(rest.take(z - from) =~= rest);
                            assert(line@.len() == b0.len() + rest.len());
                        }
                        if line.len() > MAX_HEADER_LINE {
                            return RequestReader::Failed(ParseError::Malformed);
                        }
                        return RequestReader::Line { head, buf: line };
                    }
                },
                RequestReader::Body { path, need, got } => {
                    let mut got = got;
                    let left = chunk.len() - from;
                    let want = need - got.len();
                    if left >= want {
                        push_bytes(
                            &mut got,
                            vstd::slice::slice_subrange(chunk, from, from + want),
                        );
                        proof {
                            assert(chunk@.subrange(from as int, from + want) =~= rest.take(
                                want as int,
                            ));
                        }
                        return RequestReader::Done(Request { path, body: got });
                    }
                    push_bytes(&mut got, vstd::slice::slice_subrange(chunk, from, chunk.len()));
                    proof {
                        assert(chunk@.subrange(from as int, chunk@.len() as int) =~= rest);
                    }
                    return RequestReader::Body { path, need, got };
                },
                RequestReader::Done(r) => {
                    return RequestReader::Done(r);
                },
                RequestReader::Failed(e) => {
                    return RequestReader::Failed(e);
                },
            }
        }
    }

    /// The connection ended or failed: a request that is not complete is malformed.
    pub fn end(self) -> (res: Result<Request, ParseError>)
        ensures
            match self@ {
                Reading::Done { path, body } => res matches Ok(r) && r.path@ == path && r.body@
                    == body,
                Reading::Failed(e) => res == Err::<Request, ParseError>(e),
                _ => res == Err::<Request, ParseError>(ParseError::Malformed),
            },
    {
        match self {
            RequestReader::Done(r) => Ok(r),
            RequestReader::Failed(e) => Err(e),
            _ => Err(ParseError::Malformed),
        }
    }
}

// ---------------------------------------------------------------------------------
// Routing
// ---------------------------------------------------------------------------------
/// Why a handler failed.
#[derive(Debug)]
pub struct HandlerError(pub String);

impl HandlerError {
    /// The text that describes the error.
    pub fn message(&self) -> (res: String)
        ensures
            res@ == self.0@,
    {
        self.0.clone()
    }
}

/// Answers the requests to an agent.
pub trait AgentHandler {
    fn handle(&self, id: &str, body: &[u8], sink: &mut EventSink) -> Result<(), HandlerError>;
}

/// The agents, by the slots that the caller keeps their handlers in.
#[derive(Debug)]
pub struct Server {
    pub handlers: Table<usize>,
}

/// What a request is answered.
#[derive(Debug)]
pub enum Answer {
    /// These bytes, and nothing more.
    Whole(Vec<u8>),
    /// These bytes, and then the events of the handler in a slot.
    Stream { opening: Vec<u8>, slot: usize, id: String, body: Vec<u8> },
}

/// Mathematical form of an `Answer`.
pub enum Route {
    Whole(Seq<u8>),
    Stream { opening: Seq<u8>, slot: usize, id: Seq<char>, body: Seq<u8> },
}

impl View for Answer {
    type V = Route;

    open spec fn view(&self) -> Route {
        match *self {
            Answer::Whole(b) => Route::Whole(b@),
            Answer::Stream { opening, slot, id, body } => Route::Stream {
                opening: opening@,
                slot,
                id: id@,
                body: body@,
            },
        }
    }
}

/// The agent and the id in a path, without the query behind it.
pub open spec fn agent_path(path: Seq<char>) -> Option<(Seq<char>, Seq<char>)> {
    let p = path.take(seek_char(path, 0, '?'));
    if !starts_with(p, "/agents/"@) {
        None
    } else {
        let rest = p.skip(8);
        let z = seek_char(rest, 0, '/');
        let id = rest.skip(z + 1);
        if z >= rest.len() || z == 0 || id.len() == 0 || seek_char(id, 0, '/') < id.len() {
            None
        } else {
            Some((rest.take(z), id))
        }
    }
}

/// The agent and the id in a path.
pub fn parse_agent_path(path: &str) -> (res: Option<(String, String)>)
    ensures
        match agent_path(path@) {
            Some(a) => res matches Some(r) && r.0@ == a.0 && r.1@ == a.1,
            None => res is None,
        },
{
    let all = chars_of(path);
    let q = find_char(all.as_slice(), 0, '?');
    let p = vstd::slice::slice_subrange(all.as_slice(), 0, q);
    proof {
        reveal_strlit("/agents/");
        assert("/agents/"@.len() == 8);
        assert(p@ =~= path@.take(q as int));
        assert(p@.skip(0) =~= p@);
    }
    if !crate::text::begins(p, 0, "/agents/") {
        return None;
    }
    let rest = vstd::slice::slice_subrange(p, 8, p.len());
    proof {
        assert(rest@ =~= p@.skip(8));
    }
    let z = find_char(rest, 0, '/');
    if z >= rest.len() || z == 0 {
        return None;
    }
    let id = vstd::slice::slice_subrange(rest, z + 1, rest.len());
    proof {
        assert(id@ =~= rest@.skip(z + 1));
    }
    if id.len() == 0 {
        return None;
    }
    let w = find_char(id, 0, '/');
    if w < id.len() {
        return None;
    }
    let name = text_of(rest, 0, z);
    let id_text = text_of(id, 0, id.len());
    proof {
        assert(name@ =~= rest@.take(z as int));
        assert(id_text@ =~= id@);
    }
    Some((name, id_text))
}

/// A plain answer.
pub open spec fn simple_text(status: u16, reason: Seq<char>) -> Seq<char> {
    "HTTP/1.1 "@ + dec(status as nat) + " "@ + reason
        + "\r\nContent-Type: text/plain; charset=utf-8\r\nContent-Length: "@ + dec(
        encode_utf8(reason).len(),
    ) + "\r\nConnection: close\r\n\r\n"@ + reason
}

/// What comes before the events.
pub open spec fn opening_text() -> Seq<char> {
    "HTTP/1.1 200 OK\r\nContent-Type: text/event-stream\r\nCache-Control: no-cache\r\nConnection: close\r\n\r\n"@
}

/// What a request is answered.
pub open spec fn route(
    handlers: Map<Seq<char>, usize>,
    path: Seq<char>,
    body: Seq<u8>,
) -> Route {
    match agent_path(path) {
        Some((name, id)) if handlers.dom().contains(name) => Route::Stream {
            opening: encode_utf8(opening_text()),
            slot: handlers[name],
            id,
            body,
        },
        _ => Route::Whole(encode_utf8(simple_text(404, "Not Found"@))),
    }
}

/// What a request that is refused is answered.
pub open spec fn refusal(e: ParseError) -> Seq<u8> {
    match e {
        ParseError::TooLarge => encode_utf8(simple_text(413, "Payload Too Large"@)),
        ParseError::MethodNotAllowed => encode_utf8(simple_text(405, "Method Not Allowed"@)),
        ParseError::Malformed => encode_utf8(simple_text(400, "Bad Request"@)),
    }
}

fn write_simple(status: u16, reason: &str) -> (res: Vec<u8>)
    ensures
        res@ == encode_utf8(simple_text(status, reason@)),
{
    let mut s = "HTTP/1.1 ".to_owned();
    push_dec(&mut s, status as u128);
    s.push_str(" ");
    s.push_str(reason);
    s.push_str("\r\nContent-Type: text/plain; charset=utf-8\r\nContent-Length: ");
    push_dec(&mut s, reason.as_bytes().len() as u128);
    s.push_str("\r\nConnection: close\r\n\r\n");
    s.push_str(reason);
    bytes_copy(s.as_str().as_bytes())
}

impl Server {
    pub fn new() -> (res: Self)
        ensures
            res.handlers@ == Map::<Seq<char>, usize>::empty(),
    {
        Server { handlers: Table::new() }
    }

    /// Registers the handler in a slot under a name, in place of one that had it before.
    pub fn register(&mut self, name: &str, slot: usize)
        ensures
            final(self).handlers@ == old(self).handlers@.insert(name@, slot),
    {
        self.handlers.set(name.to_owned(), slot);
    }

    /// What a request is answered.
    pub fn dispatch(&self, req: Request) -> (res: Answer)
        ensures
            res@ == route(self.handlers@, req.path@, req.body@),
    {
        let (name, id) = match parse_agent_path(req.path.as_str()) {
            Some(a) => a,
            None => {
                return Answer::Whole(write_simple(404, "Not Found"));
            },
        };
        let slot = match self.handlers.get(name.as_str()) {
            Some(s) => *s,
            None => {
                return Answer::Whole(write_simple(404, "Not Found"));
            },
        };
        let opening = "HTTP/1.1 200 OK\r\nContent-Type: text/event-stream\r\nCache-Control: no-cache\r\nConnection: close\r\n\r\n";
        Answer::Stream { opening: bytes_copy(opening.as_bytes()), slot, id, body: req.body }
    }

    /// What a connection is answered, once a request was read from it or refused.
    pub fn handle_connection(&self, outcome: Result<Request, ParseError>) -> (res: Answer)
        ensures
            match outcome {
                Ok(req) => res@ == route(self.handlers@, req.path@, req.body@),
                Err(e) => res@ == Route::Whole(refusal(e)),
            },
    {
        match outcome {
            Ok(req) => self.dispatch(req),
            Err(ParseError::TooLarge) => Answer::Whole(write_simple(413, "Payload Too Large")),
            Err(ParseError::MethodNotAllowed) => Answer::Whole(
                write_simple(405, "Method Not Allowed"),
            ),
            Err(ParseError::Malformed) => Answer::Whole(write_simple(400, "Bad Request")),
        }
    }
}

impl Default for Server {
    fn default() -> (res: Self)
        ensures
            res.handlers@ == Map::<Seq<char>, usize>::empty(),
    {
        Self::new()
    }
}

/// What follows the events of a handler: an event `error` with its text if it failed.
pub fn finish(sink: &mut EventSink, outcome: &Result<(), HandlerError>)
    ensures
        match *outcome {
            Ok(_) => final(sink).out@ == old(sink).out@,
            Err(e) => final(sink).out@ == old(sink).out@ + event_frame(
                Some(encode_utf8("error"@)),
                encode_utf8(e.0@),
            ),
        },
{
    if let Err(e) = outcome {
        sink.emit(Some("error"), e.0.as_str());
    }
}

// ---------------------------------------------------------------------------------
// Laws
// ---------------------------------------------------------------------------------
/// How a connection is cut into pieces does not matter, as long as no line was given up:
/// two pieces lead where both together lead.
pub proof fn law_pieces_do_not_matter(st: Reading, a: Seq<u8>, b: Seq<u8>)
    requires
        sound(st),
        !(read_on(st, a) is Failed),
    ensures
        read_on(read_on(st, a), b) == read_on(st, a + b),
    decreases a.len(),
{
    let c = a + b;
    match st {
        Reading::Line { head, buf } => {
            if a.len() == 0 {
                assert(c =~= b);
            } else {
                lemma_seek(a, 0, 0x0a);
                lemma_seek(c, 0, 0x0a);
                let z = seek(a, 0, 0x0a);
                let w = seek(c, 0, 0x0a);
                if z < a.len() {
                    assert(c[z] == a[z]);
                    if w < z {
                        assert(c[w] == a[w]);
                    }
                    assert(w == z);
                    assert(c.take(z) =~= a.take(z));
                    assert(c.skip(z + 1) =~= a.skip(z + 1) + b);
                    let next = line_step(head, buf + a.take(z));
                    if !(next is Failed) {
                        lemma_line_step_sound(head, buf + a.take(z));
                        law_pieces_do_not_matter(next, a.skip(z + 1), b);
                    }
                } else if b.len() == 0 {
                    assert(c =~= a);
                } else {
                    lemma_seek(b, 0, 0x0a);
                    let y = seek(b, 0, 0x0a);
                    if w < a.len() {
                        assert(c[w] == a[w]);
                    }
                    if y < b.len() {
                        assert(c[a.len() + y] == b[y]);
                    }
                    if w < c.len() {
                        assert(c[w] == b[w - a.len()]);
                    }
                    assert(w == a.len() + y);
                    if y < b.len() {
                        assert(buf + c.take(w) =~= (buf + a) + b.take(y));
                        assert(c.skip(w + 1) =~= b.skip(y + 1));
                    } else {
                        assert(buf + c =~= (buf + a) + b);
                    }
                }
            }
        },
        Reading::Body { path, need, got } => {
            if got.len() + a.len() >= need {
                assert(c.take(need - got.len()) =~= a.take(need - got.len()));
            } else {
                assert(got + c =~= (got + a) + b);
                if got.len() + c.len() >= need {
                    assert(got + c.take(need - got.len()) =~= (got + a) + b.take(
                        need - (got + a).len(),
                    ));
                }
            }
        },
        _ => {},
    }
}

proof fn lemma_line_step_sound(head: Option<HeadView>, line: Seq<u8>)
    requires
        head matches Some(h) ==> sound_head(h),
    ensures
        sound(line_step(head, line)),
{
}

/// A byte string that begins with no newline, ends with one and has no two in a row.
spec fn tight(t: Seq<u8>) -> bool {
    &&& t.len() > 0
    &&& t[0] != 0x0a
    &&& t.last() == 0x0a
    &&& forall|i: int| 0 <= i < t.len() - 1 ==> !(#[trigger] t[i] == 0x0a && t[i + 1] == 0x0a)
}

proof fn lemma_tight_concat(a: Seq<u8>, b: Seq<u8>)
    requires
        tight(a),
        tight(b),
    ensures
        tight(a + b),
{
    let c = a + b;
    assert forall|i: int| 0 <= i < c.len() - 1 implies !(#[trigger] c[i] == 0x0a && c[i + 1]
        == 0x0a) by {
        if i + 1 < a.len() {
            assert(c[i] == a[i] && c[i + 1] == a[i + 1]);
        } else if i >= a.len() {
            assert(c[i] == b[i - a.len()] && c[i + 1] == b[i - a.len() + 1]);
        } else {
            assert(c[i + 1] == b[0]);
        }
    }
}

proof fn lemma_tight_line(p: Seq<u8>, l: Seq<u8>)
    requires
        p.len() > 0,
        forall|i: int| 0 <= i < p.len() ==> #[trigger] p[i] != 0x0a,
        forall|i: int| 0 <= i < l.len() ==> #[trigger] l[i] != 0x0a,
    ensures
        tight(p + l + seq![0x0au8]),
{
    let t = p + l + seq![0x0au8];
    assert forall|i: int| 0 <= i < t.len() - 1 implies #[trigger] t[i] != 0x0a by {
        if i < p.len() {
            assert(t[i] == p[i]);
        } else {
            assert(t[i] == l[i - p.len()]);
        }
    }
}

proof fn lemma_prefixes()
    ensures
        encode_utf8("data: "@).len() > 0,
        encode_utf8("event: "@).len() > 0,
        forall|i: int|
            0 <= i < encode_utf8("data: "@).len() ==> #[trigger] encode_utf8("data: "@)[i] != 0x0a,
        forall|i: int|
            0 <= i < encode_utf8("event: "@).len() ==> #[trigger] encode_utf8("event: "@)[i]
                != 0x0a,
{
    reveal_strlit("data: ");
    reveal_strlit("event: ");
    assert(is_ascii_chars("data: "@));
    assert(is_ascii_chars("event: "@));
    is_ascii_chars_encode_utf8("data: "@);
    is_ascii_chars_encode_utf8("event: "@);
    assert forall|i: int| 0 <= i < encode_utf8("data: "@).len() implies #[trigger] encode_utf8(
        "data: "@,
    )[i] != 0x0a by {
        assert("data: "@[i] as u8 == encode_utf8("data: "@)[i]);
    }
    assert forall|i: int| 0 <= i < encode_utf8("event: "@).len() implies #[trigger] encode_utf8(
        "event: "@,
    )[i] != 0x0a by {
        assert("event: "@[i] as u8 == encode_utf8("event: "@)[i]);
    }
}

proof fn lemma_data_tight(b: Seq<u8>)
    ensures
        tight(data_lines(b)),
    decreases b.len(),
{
    lemma_prefixes();
    lemma_seek(b, 0, 0x0a);
    let z = seek(b, 0, 0x0a);
    assert forall|i: int| 0 <= i < b.take(z).len() implies #[trigger] b.take(z)[i] != 0x0a by {
        assert(b.take(z)[i] == b[i]);
    }
    lemma_tight_line(encode_utf8("data: "@), b.take(z));
    if z < b.len() {
        lemma_data_tight(b.skip(z + 1));
        lemma_tight_concat(
            encode_utf8("data: "@) + b.take(z) + seq![0x0au8],
            data_lines(b.skip(z + 1)),
        );
    }
}

/// Whatever the data holds, one event is one frame of the stream: the empty line that ends
/// a frame stands at its end and nowhere else. The name of the event may hold no newline.
pub proof fn law_event_is_one_frame(event: Option<Seq<u8>>, data: Seq<u8>)
    requires
        event matches Some(e) ==> forall|i: int| 0 <= i < e.len() ==> #[trigger] e[i] != 0x0a,
    ensures
        ({
            let f = event_frame(event, data);
            &&& frames(f) == seq![f.take(f.len() - 2)]
            &&& partial(f) == Seq::<u8>::empty()
        }),
{
    lemma_prefixes();
    lemma_data_tight(data);
    let t = event_line(event) + data_lines(data);
    match event {
        Some(e) => {
            lemma_tight_line(encode_utf8("event: "@), e);
            lemma_tight_concat(event_line(event), data_lines(data));
        },
        None => {
            assert(t =~= data_lines(data));
        },
    }
    let f = t + seq![0x0au8];
    assert(f =~= event_frame(event, data));
    lemma_find(f, 0, gap());
    let n = t.len() - 1;
    assert(f.subrange(n, n + 2) =~= gap());
    assert(stands_at(f, n, gap()));
    let z = find(f, 0, gap())->0;
    if z < n {
        assert(f.subrange(z, z + 2)[0] == gap()[0] && f.subrange(z, z + 2)[1] == gap()[1]);
        assert(t[z] == f[z] && t[z + 1] == f[z + 1]);
    }
    assert(z == n);
    assert(f.skip(z + 2) =~= Seq::<u8>::empty());
    lemma_find(Seq::<u8>::empty(), 0, gap());
    assert(find(Seq::<u8>::empty(), 0, gap()) is None);
    reveal_with_fuel(frames, 2);
    reveal_with_fuel(partial, 2);
    assert(frames(f) =~= seq![f.take(n)]);
}

/// The lines of some data without the newline at their end.
spec fn data_open(b: Seq<u8>) -> Seq<u8> {
    data_lines(b).drop_last()
}

proof fn lemma_mark()
    ensures
        encode_utf8("data: "@) =~= seq![0x64u8, 0x61u8, 0x74u8, 0x61u8, 0x3au8, 0x20u8],
        encode_utf8("event: "@).len() == 7,
        encode_utf8("event: "@)[0] == 0x65,
{
    reveal_strlit("data: ");
    reveal_strlit("event: ");
    assert(is_ascii_chars("data: "@));
    assert(is_ascii_chars("event: "@));
    is_ascii_chars_encode_utf8("data: "@);
    is_ascii_chars_encode_utf8("event: "@);
    let d = encode_utf8("data: "@);
    assert("data: "@[0] as u8 == d[0] && "data: "@[1] as u8 == d[1] && "data: "@[2] as u8 == d[2]);
    assert("data: "@[3] as u8 == d[3] && "data: "@[4] as u8 == d[4] && "data: "@[5] as u8 == d[5]);
    assert("event: "@[0] as u8 == encode_utf8("event: "@)[0]);
}

proof fn lemma_data_back(p: Seq<u8>, b: Seq<u8>, acc: Option<Seq<u8>>)
    ensures
        data_from(p + data_open(b), p.len() as int, acc) == Some(
            match acc {
                Some(a) => a.push(0x0a) + b,
                None => b,
            },
        ),
    decreases b.len(),
{
    lemma_mark();
    lemma_data_tight(b);
    let mark = encode_utf8("data: "@);
    let s = p + data_open(b);
    let n = p.len() as int;
    lemma_seek(b, 0, 0x0a);
    let z = seek(b, 0, 0x0a);
    let line = mark + b.take(z);
    lemma_seek(s, n, 0x0a);
    let w = seek(s, n, 0x0a);
    assert(line.subrange(0, 5) =~= data_mark());
    assert(line.skip(6) =~= b.take(z));
    assert(line_data(line) == Some(b.take(z)));
    if z < b.len() {
        let rest = b.skip(z + 1);
        lemma_data_tight(rest);
        assert(data_open(b) =~= line + seq![0x0au8] + data_open(rest));
        let p2 = p + line + seq![0x0au8];
        assert(p2 + data_open(rest) =~= s);
        let e = n + line.len();
        assert(s[e] == 0x0a);
        assert forall|i: int| n <= i < e implies s[i] != 0x0a by {
            assert(s[i] == line[i - n]);
            if i - n >= 6 {
                assert(line[i - n] == b[i - n - 6]);
            }
        }
        assert(w == e);
        assert(s.subrange(n, e) =~= line);
        let next = more_data(acc, line);
        lemma_data_back(p2, rest, next);
        assert(b =~= b.take(z).push(0x0a) + rest);
        match acc {
            Some(a) => {
                assert((a.push(0x0a) + b.take(z)).push(0x0a) + rest =~= a.push(0x0a) + b);
            },
            None => {},
        }
    } else {
        assert(b.take(z) =~= b);
        assert(data_open(b) =~= line);
        assert forall|i: int| n <= i < s.len() implies s[i] != 0x0a by {
            assert(s[i] == line[i - n]);
            if i - n >= 6 {
                assert(line[i - n] == b[i - n - 6]);
            }
        }
        assert(w == s.len());
        assert(s.skip(n) =~= line);
    }
}

/// Whoever reads the frame of an event finds its data in it, as it was, newlines and all.
pub proof fn law_data_comes_back(event: Option<Seq<u8>>, data: Seq<u8>)
    requires
        event matches Some(e) ==> forall|i: int| 0 <= i < e.len() ==> #[trigger] e[i] != 0x0a,
    ensures
        ({
            let f = event_frame(event, data);
            data_from(f.take(f.len() - 2), 0, None) == Some(data)
        }),
{
    lemma_mark();
    lemma_data_tight(data);
    let f = event_frame(event, data);
    let p = event_line(event);
    let s = p + data_open(data);
    assert(f.take(f.len() - 2) =~= s);
    lemma_data_back(p, data, None);
    if let Some(e) = event {
        let mark = encode_utf8("event: "@);
        let line = mark + e;
        lemma_prefixes();
        lemma_seek(s, 0, 0x0a);
        let n = line.len() as int;
        assert(p =~= line + seq![0x0au8]);
        assert(s[n] == 0x0a);
        assert forall|i: int| 0 <= i < n implies s[i] != 0x0a by {
            assert(s[i] == line[i]);
            if i < mark.len() {
                assert(line[i] == mark[i]);
            } else {
                assert(line[i] == e[i - mark.len()]);
            }
        }
        assert(seek(s, 0, 0x0a) == n);
        assert(s.subrange(0, n) =~= line);
        assert(line_data(line) is None) by {
            if stands_at(line, 0, data_mark()) {
                assert(line.subrange(0, 5)[0] == line[0]);
            }
        }
    }
}

/// A request line is `POST`, a path and a protocol `HTTP/1.`, with blanks between them. Another
/// method is not allowed; another protocol, or a missing piece, is malformed.
pub proof fn law_request_line(method: Seq<char>, path: Seq<char>, protocol: Seq<char>)
    requires
        forall|i: int| 0 <= i < method.len() ==> #[trigger] method[i] != ' ',
        forall|i: int| 0 <= i < path.len() ==> #[trigger] path[i] != ' ',
    ensures
        ({
            let res = first_line(method + seq![' '] + path + seq![' '] + protocol);
            let known = protocol.len() >= 7 && protocol.take(7) == "HTTP/1."@;
            &&& known && method == "POST"@ ==> res == (Reading::Line {
                head: Some(HeadView { path, count: 0, length: None }),
                buf: Seq::empty(),
            })
            &&& known && method != "POST"@ ==> res == Reading::Failed(ParseError::MethodNotAllowed)
            &&& !known ==> res == Reading::Failed(ParseError::Malformed)
            &&& first_line(method) == Reading::Failed(ParseError::Malformed)
        }),
{
    let s = method + seq![' '] + path + seq![' '] + protocol;
    let m = method.len() as int;
    let n = m + 1 + path.len();
    reveal_strlit("HTTP/1.");
    lemma_seek_char(s, 0, ' ');
    assert(s[m] == ' ');
    let a = seek_char(s, 0, ' ');
    assert(a == m) by {
        if a < m {
            assert(s[a] == method[a]);
        }
    }
    lemma_seek_char(s, m + 1, ' ');
    assert(s[n] == ' ');
    let b = seek_char(s, m + 1, ' ');
    assert(b == n) by {
        if b < n {
            assert(s[b] == path[b - m - 1]);
        }
    }
    assert(s.take(m) =~= method);
    assert(s.subrange(m + 1, n) =~= path);
    assert(s.skip(n + 1) =~= protocol);
    lemma_seek_char(method, 0, ' ');
}

/// A header is a name and a value with a colon between them; the name counts whatever its case,
/// and blanks around both do not. The length of the body is that of `Content-Length`, of at most
/// 1 MiB; a transfer encoding, a line without a colon and a header too many, behind 64, are
/// malformed. Any other header changes nothing.
pub proof fn law_header_lines(h: HeadView, name: Seq<char>, value: Seq<char>, n: nat)
    requires
        forall|i: int| 0 <= i < name.len() ==> #[trigger] name[i] != ':',
    ensures
        ({
            let res = header_line(h, name.push(':') + value);
            let key = lowered(trim(name));
            let same = HeadView { path: h.path, count: h.count + 1, length: h.length };
            &&& h.count >= 64 ==> res == Reading::Failed(ParseError::Malformed)
            &&& h.count < 64 && key == "content-length"@ && unsigned_value(
                trim(value),
                usize::MAX as nat,
            ) == Some(n) ==> if n > 1048576 {
                res == Reading::Failed(ParseError::TooLarge)
            } else {
                res == (Reading::Line {
                    head: Some(HeadView { length: Some(n as int), ..same }),
                    buf: Seq::empty(),
                })
            }
            &&& h.count < 64 && key == "content-length"@ && unsigned_value(
                trim(value),
                usize::MAX as nat,
            ) is None ==> res == Reading::Failed(ParseError::Malformed)
            &&& h.count < 64 && key == "transfer-encoding"@ ==> res == Reading::Failed(
                ParseError::Malformed,
            )
            &&& h.count < 64 && key != "content-length"@ && key != "transfer-encoding"@ ==> res == (
            Reading::Line { head: Some(same), buf: Seq::empty() })
            &&& header_line(h, name) == Reading::Failed(ParseError::Malformed)
        }),
{
    let s = name.push(':') + value;
    lemma_seek_char(s, 0, ':');
    assert(s[name.len() as int] == ':');
    let z = seek_char(s, 0, ':');
    assert(z == name.len()) by {
        if z < name.len() {
            assert(s[z] == name[z]);
        }
    }
    assert(s.take(z) =~= name);
    assert(s.skip(z + 1) =~= value);
    lemma_seek_char(name, 0, ':');
    reveal_strlit("content-length");
    reveal_strlit("transfer-encoding");
    assert("content-length"@.len() == 14 && "transfer-encoding"@.len() == 17);
}

/// A request is read line by line: the first is the request line, those behind it are headers, and
/// an empty one ends them. A carriage return at the end of a line does not count.
pub proof fn law_request_line_by_line(head: Option<HeadView>, line: Seq<char>, rest: Seq<u8>)
    requires
        forall|i: int|
            0 <= i < encode_utf8(line).len() ==> #[trigger] encode_utf8(line)[i] != 0x0a
                && encode_utf8(line)[i] != 0x0d,
    ensures
        ({
            let st = Reading::Line { head, buf: Seq::empty() };
            let next = match head {
                None => first_line(line),
                Some(h) => if line.len() > 0 {
                    header_line(h, line)
                } else {
                    headers_end(h)
                },
            };
            &&& read_on(st, encode_utf8(line) + seq![0x0du8, 0x0au8] + rest) == read_on(next, rest)
            &&& read_on(st, encode_utf8(line) + seq![0x0au8] + rest) == read_on(next, rest)
        }),
{
    let b = encode_utf8(line);
    encode_utf8_valid_utf8(line);
    encode_utf8_decode_utf8(line);
    if b.len() > 0 {
        assert(b[b.len() - 1] != 0x0d);
    }
    assert(b.push(0x0d).drop_last() =~= b);
    lemma_read_line(head, b, rest);
    assert forall|i: int| 0 <= i < b.push(0x0d).len() implies #[trigger] b.push(0x0d)[i] != 0x0a by {
        if i < b.len() {
            assert(b.push(0x0d)[i] == b[i]);
        }
    }
    lemma_read_line(head, b.push(0x0d), rest);
    assert(b.push(0x0d) + seq![0x0au8] + rest =~= b + seq![0x0du8, 0x0au8] + rest);
}

proof fn lemma_read_line(head: Option<HeadView>, l: Seq<u8>, rest: Seq<u8>)
    requires
        forall|i: int| 0 <= i < l.len() ==> #[trigger] l[i] != 0x0a,
    ensures
        read_on(Reading::Line { head, buf: Seq::empty() }, l + seq![0x0au8] + rest) == read_on(
            line_step(head, l),
            rest,
        ),
{
    let c = l + seq![0x0au8] + rest;
    let n = l.len() as int;
    lemma_seek(c, 0, 0x0a);
    assert(c[n] == 0x0a);
    let z = seek(c, 0, 0x0a);
    assert(z == n) by {
        if z < n {
            assert(c[z] == l[z]);
        }
    }
    assert(Seq::<u8>::empty() + c.take(z) =~= l);
    assert(c.skip(z + 1) =~= rest);
}

/// Behind the headers stands the body: as many bytes as its length says, and none without one.
/// What follows them is not read.
pub proof fn law_body_has_its_length(path: Seq<char>, count: int, body: Seq<u8>, more: Seq<u8>)
    ensures
        ({
            let h = HeadView { path, count, length: Some(body.len() as int) };
            let open = HeadView { path, count, length: None };
            &&& read_on(headers_end(h), body + more) == (Reading::Done { path, body })
            &&& read_on(headers_end(open), more) == (Reading::Done { path, body: Seq::empty() })
        }),
{
    assert((body + more).take(body.len() as int) =~= body);
    assert(Seq::<u8>::empty() + body =~= body);
}

/// The path `/agents/<name>/<id>` leads to the handler of that name, with that id and the body,
/// whatever query stands behind it; without such a handler, and from a path that begins
/// otherwise, nothing is found.
pub proof fn law_routes(
    handlers: Map<Seq<char>, usize>,
    name: Seq<char>,
    id: Seq<char>,
    query: Seq<char>,
    body: Seq<u8>,
)
    requires
        name.len() > 0,
        id.len() > 0,
        forall|i: int| 0 <= i < name.len() ==> #[trigger] name[i] != '/' && name[i] != '?',
        forall|i: int| 0 <= i < id.len() ==> #[trigger] id[i] != '/' && id[i] != '?',
        query.len() == 0 || query[0] == '?',
    ensures
        ({
            let path = "/agents/"@ + name + seq!['/'] + id + query;
            &&& handlers.contains_key(name) ==> (route(handlers, path, body) matches Route::Stream {
                opening: _,
                slot,
                id: got,
                body: data,
            } && slot == handlers[name] && got == id && data == body)
            &&& !handlers.contains_key(name) ==> route(handlers, path, body) == Route::Whole(
                encode_utf8(simple_text(404, "Not Found"@)),
            )
        }),
        forall|other: Seq<char>|
            !starts_with(other, "/agents/"@) ==> #[trigger] route(handlers, other, body)
                == Route::Whole(encode_utf8(simple_text(404, "Not Found"@))),
{
    reveal_strlit("/agents/");
    let start = "/agents/"@;
    let path = start + name + seq!['/'] + id + query;
    let p = start + name + seq!['/'] + id;
    let n = p.len() as int;
    lemma_seek_char(path, 0, '?');
    let z = seek_char(path, 0, '?');
    assert forall|i: int| 0 <= i < n implies path[i] != '?' by {
        assert(path[i] == p[i]);
        if i < 8 {
            assert(p[i] == start[i]);
        } else if i < 8 + name.len() {
            assert(p[i] == name[i - 8]);
        } else if i > 8 + name.len() {
            assert(p[i] == id[i - 9 - name.len()]);
        }
    }
    if query.len() > 0 {
        assert(path[n] == '?');
    }
    assert(z == n);
    assert(path.take(n) =~= p);
    assert(p.take(8) =~= start);
    let rest = name + seq!['/'] + id;
    assert(p.skip(8) =~= rest);
    lemma_seek_char(rest, 0, '/');
    let y = seek_char(rest, 0, '/');
    assert(rest[name.len() as int] == '/');
    assert(y == name.len()) by {
        if y < name.len() {
            assert(rest[y] == name[y]);
        }
    }
    assert(rest.take(y) =~= name);
    assert(rest.skip(y + 1) =~= id);
    lemma_seek_char(id, 0, '/');
    assert forall|other: Seq<char>|
        !starts_with(other, "/agents/"@) implies #[trigger] route(handlers, other, body)
        == Route::Whole(encode_utf8(simple_text(404, "Not Found"@))) by {
        lemma_seek_char(other, 0, '?');
        let q = other.take(seek_char(other, 0, '?'));
        if starts_with(q, "/agents/"@) {
            assert(other.take(8) =~= q.take(8));
        }
    }
}

/// A request that is refused is answered with the status for it, and the length of an answer is
/// that of its text.
pub proof fn law_refusals(status: u16, reason: Seq<char>)
    ensures
        refusal(ParseError::TooLarge) == encode_utf8(simple_text(413, "Payload Too Large"@)),
        refusal(ParseError::MethodNotAllowed) == encode_utf8(simple_text(405, "Method Not Allowed"@)),
        refusal(ParseError::Malformed) == encode_utf8(simple_text(400, "Bad Request"@)),
        simple_text(status, reason) == "HTTP/1.1 "@ + dec(status as nat) + " "@ + reason
            + "\r\nContent-Type: text/plain; charset=utf-8\r\nContent-Length: "@ + dec(
            encode_utf8(reason).len(),
        ) + "\r\nConnection: close\r\n\r\n"@ + reason,
{
}

/// A line that has not ended is waited for up to 8192 bytes, and given up beyond.
pub proof fn law_long_lines_are_given_up(head: Option<HeadView>, buf: Seq<u8>, chunk: Seq<u8>)
    requires
        chunk.len() > 0,
        forall|i: int| 0 <= i < chunk.len() ==> #[trigger] chunk[i] != 0x0a,
    ensures
        ({
            let res = read_on(Reading::Line { head, buf }, chunk);
            &&& buf.len() + chunk.len() > 8192 ==> res == Reading::Failed(ParseError::Malformed)
            &&& buf.len() + chunk.len() <= 8192 ==> res == (Reading::Line { head, buf: buf + chunk })
        }),
{
    lemma_seek(chunk, 0, 0x0a);
    let z = seek(chunk, 0, 0x0a);
    if z < chunk.len() {
        assert(chunk[z] != 0x0a);
    }
}

/// A path with an empty name, without an id, or with more behind the id leads nowhere.
pub proof fn law_paths_that_lead_nowhere(
    handlers: Map<Seq<char>, usize>,
    name: Seq<char>,
    rest: Seq<char>,
    body: Seq<u8>,
)
    requires
        forall|i: int| 0 <= i < name.len() ==> #[trigger] name[i] != '/' && name[i] != '?',
        forall|i: int| 0 <= i < rest.len() ==> #[trigger] rest[i] != '?',
        name.len() == 0 || rest.len() == 0 || exists|i: int| 0 <= i < rest.len() && #[trigger] rest[i] == '/',
    ensures
        route(handlers, "/agents/"@ + name + seq!['/'] + rest, body) == Route::Whole(
            encode_utf8(simple_text(404, "Not Found"@)),
        ),
        route(handlers, "/agents/"@ + name, body) == Route::Whole(
            encode_utf8(simple_text(404, "Not Found"@)),
        ),
{
    reveal_strlit("/agents/");
    let start = "/agents/"@;
    let path = start + name + seq!['/'] + rest;
    lemma_seek_char(path, 0, '?');
    let z = seek_char(path, 0, '?');
    assert(z == path.len()) by {
        if z < path.len() {
            if z < 8 {
                assert(path[z] == start[z]);
            } else if z < 8 + name.len() {
                assert(path[z] == name[z - 8]);
            } else if z > 8 + name.len() {
                assert(path[z] == rest[z - 9 - name.len()]);
            }
        }
    }
    assert(path.take(z) =~= path);
    assert(path.take(8) =~= start);
    let tail = name + seq!['/'] + rest;
    assert(path.skip(8) =~= tail);
    lemma_seek_char(tail, 0, '/');
    let y = seek_char(tail, 0, '/');
    assert(tail[name.len() as int] == '/');
    assert(y == name.len()) by {
        if y < name.len() {
            assert(tail[y] == name[y]);
        }
    }
    assert(tail.skip(y + 1) =~= rest);
    lemma_seek_char(rest, 0, '/');
    if exists|i: int| 0 <= i < rest.len() && #[trigger] rest[i] == '/' {
        let i = choose|i: int| 0 <= i < rest.len() && #[trigger] rest[i] == '/';
        assert(seek_char(rest, 0, '/') <= i);
    }
    let short = start + name;
    lemma_seek_char(short, 0, '?');
    let x = seek_char(short, 0, '?');
    assert(x == short.len()) by {
        if x < short.len() {
            if x < 8 {
                assert(short[x] == start[x]);
            } else {
                assert(short[x] == name[x - 8]);
            }
        }
    }
    assert(short.take(x) =~= short);
    assert(short.take(8) =~= start);
    assert(short.skip(8) =~= name);
    lemma_seek_char(name, 0, '/');
}

/// In lower case each capital letter is its small one, and everything else stays: two names that
/// differ in their case alone are one.
pub proof fn law_case_does_not_count(s: Seq<char>, i: int)
    requires
        0 <= i < s.len(),
    ensures
        lowered(s).len() == s.len(),
        'A' <= s[i] <= 'Z' ==> lowered(s)[i] as int == s[i] as int - 'A' as int + 'a' as int,
        !('A' <= s[i] <= 'Z') ==> lowered(s)[i] == s[i],
{
}

} // verus!
