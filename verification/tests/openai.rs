//! Requests to OpenAI and the replies to them.

use sandcastle::harness::adapters::{openai_event, openai_request};
use sandcastle::harness::model::{ModelEvent, ToolDef};
use sandcastle::harness::session::{HarnessState, Session};
use sandcastle::http::{join_url, stream_end, transport_error, whole_end};
use sandcastle::openai::{
    host_of, parse_frame, serialize_request, Chunk, Client, ContentBlock, Error, Event,
    EventStream, Message, Parsed, Pull, Request, Role, Tool,
};
use sandcastle::wire::sse::frame_data;

#[test]
fn serialize_minimal_user_message() {
    let req = Request {
        model: "gpt-4o-mini".into(),
        max_tokens: 0,
        messages: vec![Message::user_text("hi")],
        system: None,
        tools: vec![],
    };
    let body = serialize_request(&req);
    assert_eq!(
        body,
        r#"{"model":"gpt-4o-mini","stream":true,"messages":[{"role":"user","content":"hi"}]}"#
    );
}

#[test]
fn serialize_max_tokens_only_when_nonzero() {
    let req = Request {
        model: "m".into(),
        max_tokens: 64,
        messages: vec![Message::user_text("hi")],
        system: None,
        tools: vec![],
    };
    assert!(serialize_request(&req).contains(r#""max_tokens":64"#));
}

#[test]
fn serialize_system_becomes_leading_message() {
    let req = Request {
        model: "m".into(),
        max_tokens: 0,
        messages: vec![Message::user_text("hello")],
        system: Some("be terse".into()),
        tools: vec![],
    };
    let body = serialize_request(&req);
    assert!(body.contains(
        r#""messages":[{"role":"system","content":"be terse"},{"role":"user","content":"hello"}]"#
    ));
}

#[test]
fn serialize_assistant_with_tool_use() {
    let req = Request {
        model: "m".into(),
        max_tokens: 0,
        messages: vec![Message {
            role: Role::Assistant,
            content: vec![ContentBlock::ToolUse {
                id: "call_1".into(),
                name: "bash".into(),
                input: r#"{"command":"ls"}"#.into(),
            }],
        }],
        system: None,
        tools: vec![],
    };
    let body = serialize_request(&req);
    assert!(body.contains(
        r#"{"role":"assistant","content":null,"tool_calls":[{"id":"call_1","type":"function","function":{"name":"bash","arguments":"{\"command\":\"ls\"}"}}]}"#
    ));
}

#[test]
fn serialize_assistant_with_text_and_tool_use() {
    let req = Request {
        model: "m".into(),
        max_tokens: 0,
        messages: vec![Message {
            role: Role::Assistant,
            content: vec![
                ContentBlock::Text("looking…".into()),
                ContentBlock::ToolUse {
                    id: "call_1".into(),
                    name: "bash".into(),
                    input: r#"{"command":"ls"}"#.into(),
                },
            ],
        }],
        system: None,
        tools: vec![],
    };
    let body = serialize_request(&req);
    assert!(body.contains(r#""role":"assistant","content":"looking…""#));
    assert!(body.contains(r#""tool_calls":[{"id":"call_1""#));
}

#[test]
fn serialize_tool_result_becomes_tool_role_message() {
    let req = Request {
        model: "m".into(),
        max_tokens: 0,
        messages: vec![Message {
            role: Role::User,
            content: vec![ContentBlock::ToolResult {
                tool_use_id: "call_1".into(),
                content: "file1\nfile2\n".into(),
            }],
        }],
        system: None,
        tools: vec![],
    };
    let body = serialize_request(&req);
    assert!(body.contains(
        r#"{"role":"tool","tool_call_id":"call_1","content":"file1\nfile2\n"}"#
    ));
    // No user message around it.
    assert!(!body.contains(r#""role":"user""#));
}

#[test]
fn serialize_multiple_tool_results_split_into_multiple_messages() {
    let req = Request {
        model: "m".into(),
        max_tokens: 0,
        messages: vec![Message {
            role: Role::User,
            content: vec![
                ContentBlock::ToolResult {
                    tool_use_id: "call_1".into(),
                    content: "a".into(),
                },
                ContentBlock::ToolResult {
                    tool_use_id: "call_2".into(),
                    content: "b".into(),
                },
            ],
        }],
        system: None,
        tools: vec![],
    };
    let body = serialize_request(&req);
    assert!(body.contains(
        r#"{"role":"tool","tool_call_id":"call_1","content":"a"},{"role":"tool","tool_call_id":"call_2","content":"b"}"#
    ));
}

#[test]
fn serialize_multiple_tools_registered() {
    let req = Request {
        model: "m".into(),
        max_tokens: 0,
        messages: vec![Message::user_text("hi")],
        system: None,
        tools: vec![
            Tool {
                name: "bash".into(),
                description: "run a shell command".into(),
                input_schema: r#"{"type":"object","properties":{"command":{"type":"string"}}}"#
                    .into(),
            },
            Tool {
                name: "read_file".into(),
                description: "read a file".into(),
                input_schema: r#"{"type":"object"}"#.into(),
            },
        ],
    };
    let body = serialize_request(&req);
    assert!(body.contains(
        r#""tools":[{"type":"function","function":{"name":"bash","description":"run a shell command","parameters":{"type":"object","properties":{"command":{"type":"string"}}}}},{"type":"function","function":{"name":"read_file","description":"read a file","parameters":{"type":"object"}}}]"#
    ));
}

#[test]
fn lib_serialize_escapes_dangerous_chars() {
    let req = Request {
        model: "m".into(),
        max_tokens: 0,
        messages: vec![Message::user_text("a\"b\\c\n")],
        system: None,
        tools: vec![],
    };
    let body = serialize_request(&req);
    assert!(body.contains(r#""content":"a\"b\\c\n""#));
}

#[test]
fn client_default_base_url() {
    let c = Client::new("k".into());
    assert_eq!(c.base_url, "https://api.openai.com");
}

#[test]
fn client_with_base_url() {
    let c = Client::new("k".into()).with_base_url("http://localhost:1234");
    assert_eq!(c.base_url, "http://localhost:1234");
}

#[test]
fn join_url_no_trailing_slash() {
    assert_eq!(
        join_url("https://api.openai.com", "/v1/chat/completions"),
        "https://api.openai.com/v1/chat/completions"
    );
}

#[test]
fn join_url_trims_trailing_slash() {
    assert_eq!(
        join_url("http://localhost:1234/", "/v1/chat/completions"),
        "http://localhost:1234/v1/chat/completions"
    );
}

fn plain_request() -> Request {
    Request {
        model: "m".into(),
        max_tokens: 0,
        messages: vec![Message::user_text("hi")],
        system: None,
        tools: vec![],
    }
}

#[test]
fn request_goes_to_completions() {
    let c = Client::new("key".into()).with_base_url("http://localhost:1234/");
    let call = c.stream(&plain_request(), false).unwrap();
    assert!(call.post);
    assert_eq!(call.url, "http://localhost:1234/v1/chat/completions");
    assert_eq!(call.headers[0], "Authorization: Bearer key");
    assert_eq!(call.headers.len(), 3);
    assert_eq!(call.body.as_deref(), Some(serialize_request(&plain_request()).as_str()));
}

#[test]
fn refused_requests() {
    let c = Client::new("key".into());
    let err = c.stream(&plain_request(), true).unwrap_err();
    assert_eq!(
        err.message(),
        "http: circuit open for api.openai.com (recent upstream failures)"
    );
    let c = Client::new("k\0".into());
    match c.stream(&plain_request(), false) {
        Err(Error::Http(m)) => assert_eq!(m, "api key contains NUL"),
        other => panic!("unexpected: {other:?}"),
    }
    let c = Client::new("k".into()).with_base_url("http://\0");
    match c.stream(&plain_request(), false) {
        Err(Error::Http(m)) => assert_eq!(m, "bad URL"),
        other => panic!("unexpected: {other:?}"),
    }
}

#[test]
fn hosts() {
    assert_eq!(host_of("https://api.openai.com"), "api.openai.com");
    assert_eq!(host_of("http://localhost:1234/v1"), "localhost");
    assert_eq!(host_of("example.org/x"), "example.org");
    assert_eq!(host_of("http://h?q"), "h");
}

#[test]
fn transport_texts() {
    assert_eq!(transport_error("perform", "timed out", 28), "curl perform: timed out (code 28)");
    assert_eq!(stream_end(0, "", 200), Ok(200));
    assert_eq!(stream_end(23, "", 299), Ok(299));
    assert_eq!(stream_end(0, "", 404), Err("HTTP 404".to_string()));
    assert_eq!(stream_end(0, "", -1), Err("HTTP -1".to_string()));
    assert_eq!(
        stream_end(28, "timed out", 200),
        Err("curl perform: timed out (code 28)".to_string())
    );
    let r = whole_end(0, "", 70000, vec![1]).unwrap();
    assert_eq!((r.status, r.body), (65535, vec![1]));
    assert_eq!(whole_end(0, "", -5, vec![]).unwrap().status, 0);
    assert_eq!(
        whole_end(23, "aborted", 200, vec![]).unwrap_err(),
        "curl perform: aborted (code 23)"
    );
}

fn text_frame(text: &str) -> Vec<u8> {
    format!("data: {{\"choices\":[{{\"delta\":{{\"content\":\"{text}\"}}}}]}}\n\n").into_bytes()
}

#[test]
fn events_of_a_frame_come_one_by_one() {
    let mut s = EventStream::new();
    assert!(matches!(s.try_next(), Pull::Wait));
    s.chunk(Chunk::Data(text_frame("x")));
    s.chunk(Chunk::Data(
        br#"data: {"choices":[{"delta":{},"finish_reason":"tool_calls"}]}"#.to_vec(),
    ));
    assert!(matches!(s.try_next(), Pull::Event(Ok(Event::TextDelta(t))) if t == "x"));
    assert!(matches!(s.try_next(), Pull::Wait));
    s.chunk(Chunk::Data(b"\n\ndata: [DONE]\n\n".to_vec()));
    assert!(matches!(s.try_next(), Pull::Event(Ok(Event::ContentBlockStop))));
    assert!(
        matches!(s.try_next(), Pull::Event(Ok(Event::Stop { reason: Some(r) })) if r == "tool_use")
    );
    assert!(matches!(s.try_next(), Pull::Ended(None)));
    s.chunk(Chunk::Data(text_frame("late")));
    assert!(matches!(s.try_next(), Pull::Ended(None)));
}

#[test]
fn a_failed_transfer_is_told_once() {
    let mut s = EventStream::new();
    s.chunk(Chunk::Data(b"data: {\n\n".to_vec()));
    s.chunk(Chunk::Data(text_frame("y")));
    s.chunk(Chunk::Failed(Error::Http("HTTP 500".into())));
    assert!(matches!(s.try_next(), Pull::Event(Err(Error::InvalidResponse(_)))));
    assert!(matches!(s.try_next(), Pull::Event(Ok(Event::TextDelta(_)))));
    match s.try_next() {
        Pull::Ended(Some(e)) => assert_eq!(e.message(), "http: HTTP 500"),
        other => panic!("unexpected: {other:?}"),
    }
    assert!(matches!(s.try_next(), Pull::Ended(None)));
}

#[test]
fn frames_with_tool_calls_are_read() {
    let frame = br#"data: {"choices":[{"delta":{"tool_calls":[{"id":"c1","function":{"name":"bash","arguments":""}},{"function":{"arguments":"{\"a\""}}]},"finish_reason":null}]}"#;
    match parse_frame(frame).unwrap() {
        Parsed::Events(evs) => assert_eq!(
            evs,
            vec![
                Event::ToolUseStart { id: "c1".into(), name: "bash".into() },
                Event::ToolUseInputDelta("{\"a\"".into()),
            ]
        ),
        other => panic!("unexpected: {other:?}"),
    }
    match parse_frame(br#"data:{"choices":[{"delta":{},"finish_reason":"stop"}]}"#).unwrap() {
        Parsed::Events(evs) => {
            assert_eq!(evs, vec![Event::Stop { reason: Some("end_turn".into()) }])
        }
        other => panic!("unexpected: {other:?}"),
    }
    assert!(matches!(parse_frame(b"data: [DONE]").unwrap(), Parsed::Terminate));
    assert!(matches!(parse_frame(b": note"), Err(Error::InvalidResponse(_))));
}

#[test]
fn data_lines_of_a_frame() {
    assert_eq!(frame_data(b"event: e\ndata: a\nid: 1\ndata:b"), Some(b"a\nb".to_vec()));
    assert_eq!(frame_data(b"data:"), Some(vec![]));
    assert_eq!(frame_data(b"event: e"), None);
}

#[test]
fn openai_requests_and_events_of_a_session() {
    let tools = vec![ToolDef {
        name: "bash".into(),
        description: "d".into(),
        input_schema: "{}".into(),
    }];
    let mut session = Session::new("s", HarnessState::new("h").with_tools(tools));
    let req = openai_request(&session.begin_prompt("hi"), "m");
    assert_eq!(
        serialize_request(&req),
        r#"{"model":"m","stream":true,"messages":[{"role":"user","content":"hi"}],"max_tokens":4096,"tools":[{"type":"function","function":{"name":"bash","description":"d","parameters":{}}}]}"#
    );
    assert!(matches!(openai_event(Event::TextDelta("x".into())), Some(ModelEvent::TextDelta(_))));
    assert!(openai_event(Event::Other("x".into())).is_none());
}

#[test]
fn assistant_text_is_a_plain_message() {
    let mut req = plain_request();
    req.messages = vec![Message::assistant_text("yes")];
    assert!(serialize_request(&req).contains(r#"[{"role":"assistant","content":"yes"}]"#));
}
