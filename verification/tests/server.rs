//! Requests over HTTP to agents, and the events that they answer with.

use sandcastle::server::{
    finish, parse_agent_path, AgentHandler, Answer, EventSink, HandlerError, ParseError, Request,
    RequestReader, Server, MAX_BODY, MAX_HEADERS, MAX_HEADER_LINE,
};

struct EchoAgent;

impl AgentHandler for EchoAgent {
    fn handle(&self, id: &str, body: &[u8], sink: &mut EventSink) -> Result<(), HandlerError> {
        sink.emit(Some("start"), id);
        sink.emit_data(std::str::from_utf8(body).unwrap_or("<binary>"));
        sink.emit(Some("done"), "");
        Ok(())
    }
}

struct ErrAgent;

impl AgentHandler for ErrAgent {
    fn handle(&self, _id: &str, _body: &[u8], _sink: &mut EventSink) -> Result<(), HandlerError> {
        Err(HandlerError("boom".into()))
    }
}

struct LenAgent;

impl AgentHandler for LenAgent {
    fn handle(&self, _id: &str, body: &[u8], sink: &mut EventSink) -> Result<(), HandlerError> {
        sink.emit_data(&body.len().to_string());
        Ok(())
    }
}

/// A server with its handlers.
struct Demo {
    server: Server,
    handlers: Vec<Box<dyn AgentHandler>>,
}

impl Demo {
    fn new() -> Demo {
        let mut server = Server::new();
        server.register("echo", 0);
        server.register("err", 1);
        server.register("len", 2);
        Demo { server, handlers: vec![Box::new(EchoAgent), Box::new(ErrAgent), Box::new(LenAgent)] }
    }

    fn answer(&self, outcome: Result<Request, ParseError>) -> Vec<u8> {
        match self.server.handle_connection(outcome) {
            Answer::Whole(bytes) => bytes,
            Answer::Stream { opening, slot, id, body } => {
                let mut sink = EventSink::new();
                let outcome = self.handlers[slot].handle(&id, &body, &mut sink);
                finish(&mut sink, &outcome);
                [opening, sink.out].concat()
            }
        }
    }

    fn send(&self, raw: &[u8]) -> Vec<u8> {
        let mut reader = RequestReader::new();
        for piece in raw.chunks(1000) {
            reader = reader.push(piece);
        }
        self.answer(reader.end())
    }
}

fn split_headers_body(resp: &[u8]) -> (String, Vec<u8>) {
    let sep = b"\r\n\r\n";
    let idx = resp.windows(4).position(|w| w == sep).unwrap();
    let head = String::from_utf8_lossy(&resp[..idx]).to_string();
    let body = resp[idx + 4..].to_vec();
    (head, body)
}

#[test]
fn registered_handler_returns_sse_events() {
    let server = Demo::new();
    let req = b"POST /agents/echo/abc HTTP/1.1\r\nHost: x\r\nContent-Length: 5\r\n\r\nhello";
    let resp = server.send(req);
    let (head, body) = split_headers_body(&resp);
    assert!(head.starts_with("HTTP/1.1 200 OK"));
    assert!(head.contains("Content-Type: text/event-stream"));
    let body = String::from_utf8(body).unwrap();
    assert!(body.contains("event: start\ndata: abc\n\n"), "body was: {body:?}");
    assert!(body.contains("data: hello\n\n"));
    assert!(body.contains("event: done\ndata: \n\n"));
}

#[test]
fn unknown_agent_returns_404() {
    let server = Demo::new();
    let req = b"POST /agents/missing/x HTTP/1.1\r\nContent-Length: 0\r\n\r\n";
    let resp = server.send(req);
    assert!(resp.starts_with(b"HTTP/1.1 404"));
}

#[test]
fn unknown_route_returns_404() {
    let server = Demo::new();
    let req = b"POST /nope HTTP/1.1\r\nContent-Length: 0\r\n\r\n";
    let resp = server.send(req);
    assert!(resp.starts_with(b"HTTP/1.1 404"));
}

#[test]
fn get_returns_405() {
    let server = Demo::new();
    let req = b"GET /agents/echo/x HTTP/1.1\r\n\r\n";
    let resp = server.send(req);
    assert!(resp.starts_with(b"HTTP/1.1 405"));
}

#[test]
fn empty_body_ok() {
    let server = Demo::new();
    let req = b"POST /agents/len/x HTTP/1.1\r\nContent-Length: 0\r\n\r\n";
    let resp = server.send(req);
    let (_, body) = split_headers_body(&resp);
    assert!(String::from_utf8(body).unwrap().contains("data: 0\n\n"));
}

#[test]
fn no_content_length_treated_as_empty_body() {
    let server = Demo::new();
    let req = b"POST /agents/len/x HTTP/1.1\r\n\r\n";
    let resp = server.send(req);
    let (_, body) = split_headers_body(&resp);
    assert!(String::from_utf8(body).unwrap().contains("data: 0\n\n"));
}

#[test]
fn one_mib_body_ok() {
    let server = Demo::new();
    let mut req =
        b"POST /agents/len/x HTTP/1.1\r\nContent-Length: 1048576\r\n\r\n".to_vec();
    req.extend(vec![b'a'; MAX_BODY]);
    let resp = server.send(&req);
    let (head, body) = split_headers_body(&resp);
    assert!(head.starts_with("HTTP/1.1 200 OK"));
    assert!(String::from_utf8(body).unwrap().contains("data: 1048576\n\n"));
}

#[test]
fn oversized_body_returns_413() {
    let server = Demo::new();
    let req = b"POST /agents/len/x HTTP/1.1\r\nContent-Length: 1048577\r\n\r\n";
    let resp = server.send(req);
    assert!(resp.starts_with(b"HTTP/1.1 413"));
}

#[test]
fn malformed_request_returns_400() {
    let server = Demo::new();
    let resp = server.send(b"not http at all\r\n\r\n");
    assert!(resp.starts_with(b"HTTP/1.1 400"));
}

#[test]
fn chunked_encoding_rejected() {
    let server = Demo::new();
    let req =
        b"POST /agents/echo/x HTTP/1.1\r\nTransfer-Encoding: chunked\r\n\r\n0\r\n\r\n";
    let resp = server.send(req);
    assert!(resp.starts_with(b"HTTP/1.1 400"));
}

#[test]
fn handler_error_emits_sse_error_event() {
    let server = Demo::new();
    let req = b"POST /agents/err/x HTTP/1.1\r\nContent-Length: 0\r\n\r\n";
    let resp = server.send(req);
    let (head, body) = split_headers_body(&resp);
    assert!(head.starts_with("HTTP/1.1 200 OK"));
    let body = String::from_utf8(body).unwrap();
    assert!(body.contains("event: error\ndata: boom\n\n"), "body: {body:?}");
}

#[test]
fn multiple_sequential_requests_work() {
    let server = Demo::new();
    for i in 0..5 {
        let req = format!(
            "POST /agents/echo/id{i} HTTP/1.1\r\nContent-Length: 0\r\n\r\n"
        );
        let resp = server.send(req.as_bytes());
        let (head, body) = split_headers_body(&resp);
        assert!(head.starts_with("HTTP/1.1 200 OK"));
        let body = String::from_utf8(body).unwrap();
        assert!(body.contains(&format!("event: start\ndata: id{i}\n\n")));
    }
}

#[test]
fn path_with_query_string_routes_correctly() {
    let server = Demo::new();
    let req = b"POST /agents/echo/abc?foo=bar HTTP/1.1\r\nContent-Length: 0\r\n\r\n";
    let resp = server.send(req);
    let (_, body) = split_headers_body(&resp);
    let body = String::from_utf8(body).unwrap();
    assert!(body.contains("event: start\ndata: abc\n\n"));
}

#[test]
fn nested_id_with_slash_is_404() {
    let server = Demo::new();
    let req = b"POST /agents/echo/a/b HTTP/1.1\r\nContent-Length: 0\r\n\r\n";
    let resp = server.send(req);
    assert!(resp.starts_with(b"HTTP/1.1 404"));
}

#[test]
fn event_sink_emits_named_event() {
    let mut t = EventSink::new();
    t.emit(Some("msg"), "hi");
    assert_eq!(t.out, b"event: msg\ndata: hi\n\n");
}

#[test]
fn event_sink_emits_unnamed_event() {
    let mut t = EventSink::new();
    t.emit_data("hi");
    assert_eq!(t.out, b"data: hi\n\n");
}

#[test]
fn event_sink_splits_multiline_data() {
    let mut t = EventSink::new();
    t.emit(Some("e"), "a\nb");
    assert_eq!(t.out, b"event: e\ndata: a\ndata: b\n\n");
}

#[test]
fn concurrent_requests_dont_corrupt_each_other() {
    let server = Demo::new();
    let requests: Vec<String> = (0..16)
        .map(|i| format!("POST /agents/echo/id{i} HTTP/1.1\r\nContent-Length: 0\r\n\r\n"))
        .collect();
    // The requests arrive byte by byte, in turn.
    let mut readers: Vec<RequestReader> = (0..16).map(|_| RequestReader::new()).collect();
    for at in 0..requests.iter().map(|r| r.len()).max().unwrap() {
        readers = readers
            .into_iter()
            .zip(&requests)
            .map(|(reader, r)| match r.as_bytes().get(at) {
                Some(b) => reader.push(&[*b]),
                None => reader,
            })
            .collect();
    }
    for (i, reader) in readers.into_iter().enumerate() {
        let resp = server.answer(reader.end());
        let body = String::from_utf8_lossy(&resp).to_string();
        assert!(body.contains(&format!("event: start\ndata: id{i}\n\n")), "got: {body}");
    }
}

#[test]
fn pieces_do_not_matter() {
    let raw = b"POST /agents/echo/abc HTTP/1.1\r\nContent-Length: 5\r\n\r\nhello";
    for n in 1..raw.len() {
        let mut reader = RequestReader::new();
        for piece in raw.chunks(n) {
            reader = reader.push(piece);
        }
        let req = reader.end().unwrap();
        assert_eq!(req.path, "/agents/echo/abc");
        assert_eq!(req.body, b"hello");
    }
}

#[test]
fn limits_of_a_head() {
    let long = "a".repeat(MAX_HEADER_LINE + 1);
    let reader = RequestReader::new().push(long.as_bytes());
    assert!(matches!(reader.end(), Err(ParseError::Malformed)));
    let many = format!("POST / HTTP/1.1\r\n{}\r\n", "a: b\r\n".repeat(MAX_HEADERS + 1));
    let reader = RequestReader::new().push(many.as_bytes());
    assert!(matches!(reader.end(), Err(ParseError::Malformed)));
    let short = RequestReader::new().push(b"POST / HTTP/1.1\r\nContent-Length: 4\r\n\r\nabc");
    assert!(matches!(short.end(), Err(ParseError::Malformed)));
}

#[test]
fn agent_paths() {
    assert_eq!(parse_agent_path("/agents/a/b"), Some(("a".to_string(), "b".to_string())));
    assert_eq!(parse_agent_path("/agents//b"), None);
    assert_eq!(parse_agent_path("/agents/a/"), None);
    assert_eq!(parse_agent_path("/agent/a/b"), None);
}

#[test]
fn refusals_are_exact() {
    let resp = Demo::new().answer(Err(ParseError::TooLarge));
    assert_eq!(
        String::from_utf8(resp).unwrap(),
        "HTTP/1.1 413 Payload Too Large\r\nContent-Type: text/plain; charset=utf-8\r\n\
         Content-Length: 17\r\nConnection: close\r\n\r\nPayload Too Large"
    );
    assert_eq!(HandlerError("x".into()).message(), "x");
}

#[test]
fn a_name_belongs_to_the_last_handler() {
    let mut server = Server::default();
    server.register("a", 1);
    server.register("a", 2);
    let req = Request { path: "/agents/a/b".into(), body: vec![] };
    assert!(matches!(server.dispatch(req), Answer::Stream { slot: 2, .. }));
}
